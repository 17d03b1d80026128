//! Registry-and-burn-chain game orchestration.
//!
//! There is no lobby, match, opponent connection, or peer transport. Every browser discovers
//! players from one operator-specific registry script, then reads native action-asset burns from
//! those players' scripts through the existing Arkade indexer.

use crate::actions;
use crate::actions::ActionEvent;
use crate::address;
use crate::address::Contract;
use crate::arkade;
use crate::arkade::{ArkadeRest, Params, Record, ServerParams, VtxoRecord};
use crate::chain::{AssetId, OutPoint, Txid};
use crate::game;
use crate::gamelog;
use crate::pending;
use crate::pending::{Pending, PendingAction, PendingFinalize, Prepared, Purpose, UnknownSubmission};
use crate::psbt;
use crate::psbt::{Psbt, Signed};
use crate::table::{KeySet, Table, TextSet};
use crate::text;
use vstd::prelude::*;

pub mod discovery;
pub mod journal;
pub mod laws;
pub mod players;
pub mod registry;
pub mod snapshot;
pub mod sync;
pub mod tick;
pub mod transfer;

verus! {

/// A total that pays exactly what is required, or leaves change that is not too small.
pub open spec fn total_is_valid(total: u64, required: u64, minimum_change: u64) -> bool {
    total == required || total >= required && total - required >= minimum_change
}

pub fn valid_registration_total(total: u64, required: u64, minimum_change: u64) -> (valid: bool)
    ensures
        valid == total_is_valid(total, required, minimum_change),
{
    total == required || total >= required && total - required >= minimum_change
}

/// A valid total never leaves change below the minimum.
pub proof fn law_registration_never_leaves_small_change(
    total: u64,
    required: u64,
    minimum_change: u64,
)
    requires
        total_is_valid(total, required, minimum_change),
    ensures
        total == required || total - required >= minimum_change,
{
}

/// Whether `pattern` occurs in a text at a place.
pub open spec fn occurs_at(text: Seq<char>, pattern: Seq<char>, at: int) -> bool {
    0 <= at && at + pattern.len() <= text.len() && text.subrange(at, at + pattern.len()) == pattern
}

/// Whether a place is the first where `pattern` occurs.
pub open spec fn first_at(text: Seq<char>, pattern: Seq<char>, at: int) -> bool {
    occurs_at(text, pattern, at) && forall|i: int| i < at ==> !#[trigger] occurs_at(
        text,
        pattern,
        i,
    )
}

pub open spec fn is_hex_digit(c: char) -> bool {
    '0' <= c <= '9' || 'a' <= c <= 'f' || 'A' <= c <= 'F'
}

/// The characters of which an outpoint in an error body is made.
pub open spec fn is_token_char(c: char) -> bool {
    is_hex_digit(c) || c == ':' || c == '.'
}

/// The longest run of such characters at the end of a text.
pub open spec fn trailing_run(text: Seq<char>) -> Seq<char>
    decreases text.len(),
{
    if text.len() > 0 && is_token_char(text.last()) {
        trailing_run(text.drop_last()).push(text.last())
    } else {
        Seq::empty()
    }
}

/// The last run of such characters in a text.
pub open spec fn last_token(text: Seq<char>) -> Seq<char> {
    trailing_run(text::without_trailing(text, |c: char| !is_token_char(c)))
}

/// `txid:vout`: 64 hexadecimal digits, a colon, and a number below 2^32.
pub open spec fn is_outpoint(token: Seq<char>) -> bool {
    &&& token.len() > 65
    &&& token[64] == ':'
    &&& forall|i: int| 0 <= i < 64 ==> is_hex_digit(#[trigger] token[i])
    &&& match text::digits_value(token.skip(65)) {
        Some(value) => value <= u32::MAX,
        None => false,
    }
}

/// The outpoint that an error body reports as already spent: the last token before the first
/// `already spent`, where it is an outpoint.
pub open spec fn spent_outpoint(body: Seq<char>) -> Option<Seq<char>> {
    if exists|at: int| first_at(body, "already spent"@, at) {
        let at = choose|at: int| first_at(body, "already spent"@, at);
        let token = last_token(body.take(at));
        if is_outpoint(token) {
            Some(token)
        } else {
            None
        }
    } else {
        None
    }
}

fn is_hex(c: char) -> (result: bool)
    ensures
        result == is_hex_digit(c),
{
    (c >= '0' && c <= '9') || (c >= 'a' && c <= 'f') || (c >= 'A' && c <= 'F')
}

fn occurs(chars: &Vec<char>, pattern: &Vec<char>, at: usize) -> (result: bool)
    requires
        at <= chars@.len(),
    ensures
        result == occurs_at(chars@, pattern@, at as int),
{
    if chars.len() - at < pattern.len() {
        return false;
    }
    let ghost part = chars@.subrange(at as int, at + pattern@.len());
    let mut i: usize = 0;
    while i < pattern.len()
        invariant
            i <= pattern@.len(),
            at + pattern@.len() <= chars@.len() <= usize::MAX,
            part == chars@.subrange(at as int, at + pattern@.len()),
            forall|k: int| 0 <= k < i ==> #[trigger] part[k] == pattern@[k],
        decreases pattern@.len() - i,
    {
        assert(part[i as int] == chars@[at + i]);
        if chars[at + i] != pattern[i] {
            return false;
        }
        i += 1;
    }
    assert(part =~= pattern@);
    true
}

fn find_first(chars: &Vec<char>, pattern: &Vec<char>) -> (found: Option<usize>)
    ensures
        match found {
            Some(at) => at <= chars@.len() && first_at(chars@, pattern@, at as int),
            None => forall|at: int| !#[trigger] occurs_at(chars@, pattern@, at),
        },
{
    let n: usize = chars.len();
    let mut at: usize = 0;
    while at < n
        invariant
            at <= n == chars@.len(),
            forall|i: int| i < at ==> !#[trigger] occurs_at(chars@, pattern@, i),
        decreases n - at,
    {
        if occurs(chars, pattern, at) {
            return Some(at);
        }
        at += 1;
    }
    if occurs(chars, pattern, n) {
        return Some(n);
    }
    None
}

proof fn lemma_run(text: Seq<char>, start: int)
    requires
        0 <= start <= text.len(),
        forall|i: int| start <= i < text.len() ==> is_token_char(#[trigger] text[i]),
        start > 0 ==> !is_token_char(text[start - 1]),
    ensures
        trailing_run(text) == text.skip(start),
    decreases text.len() - start,
{
    if start == text.len() {
        assert(text.skip(start) =~= Seq::empty());
        if start > 0 {
            assert(text.last() == text[start - 1]);
        }
    } else {
        assert(text.last() == text[text.len() - 1]);
        let rest = text.drop_last();
        assert forall|i: int| start <= i < rest.len() implies is_token_char(#[trigger] rest[i]) by {
            assert(rest[i] == text[i]);
        }
        lemma_run(rest, start);
        assert(rest.skip(start).push(text.last()) =~= text.skip(start));
    }
}

fn is_outpoint_text(token: &str) -> (result: bool)
    ensures
        result == is_outpoint(token@),
{
    let chars: Vec<char> = text::chars_of(token);
    if chars.len() <= 65 || chars[64] != ':' {
        return false;
    }
    let mut i: usize = 0;
    while i < 64
        invariant
            i <= 64,
            chars@ == token@,
            chars@.len() > 65,
            forall|k: int| 0 <= k < i ==> is_hex_digit(#[trigger] token@[k]),
        decreases 64 - i,
    {
        if !is_hex(chars[i]) {
            assert(!is_hex_digit(token@[i as int]));
            return false;
        }
        i += 1;
    }
    match text::digits_from(&chars, 65) {
        Some(value) => value <= u32::MAX as u64,
        None => false,
    }
}

/// Pull a `txid:vout already spent` outpoint out of an operator error body.
pub fn extract_spent_outpoint(text: &str) -> (outpoint: Option<String>)
    ensures
        text::opt_text(outpoint) == spent_outpoint(text@),
{
    let chars: Vec<char> = text::chars_of(text);
    let pattern: Vec<char> = text::chars_of("already spent");
    let at: usize = match find_first(&chars, &pattern) {
        Some(at) => at,
        None => {
            return None;
        },
    };
    let ghost head = text@.take(at as int);
    let ghost other = |c: char| !is_token_char(c);
    proof {
        let chosen = choose|i: int| first_at(text@, "already spent"@, i);
        assert(first_at(text@, "already spent"@, at as int));
        if chosen < at {
            assert(!occurs_at(text@, "already spent"@, chosen));
        } else if at < chosen {
            assert(!occurs_at(text@, "already spent"@, at as int));
        }
    }
    let mut end: usize = at;
    assert(head.take(at as int) =~= head);
    while end > 0 && !(is_hex(chars[end - 1]) || chars[end - 1] == ':' || chars[end - 1] == '.')
        invariant
            end <= at <= chars@.len(),
            chars@ == text@,
            head == text@.take(at as int),
            other == (|c: char| !is_token_char(c)),
            text::without_trailing(head, other) == text::without_trailing(
                head.take(end as int),
                other,
            ),
        decreases end,
    {
        assert(head.take(end as int).drop_last() =~= head.take(end - 1));
        assert(head.take(end as int).last() == chars@[end - 1]);
        end -= 1;
    }
    let ghost kept = head.take(end as int);
    proof {
        if end > 0 {
            assert(kept.last() == chars@[end - 1]);
        }
        assert(text::without_trailing(head, other) == kept);
    }
    let mut start: usize = end;
    while start > 0 && (is_hex(chars[start - 1]) || chars[start - 1] == ':' || chars[start - 1]
        == '.')
        invariant
            start <= end <= at <= chars@.len(),
            chars@ == text@,
            kept == text@.take(at as int).take(end as int),
            forall|i: int| start <= i < end ==> is_token_char(#[trigger] kept[i]),
        decreases start,
    {
        assert(kept[start - 1] == chars@[start - 1]);
        start -= 1;
    }
    proof {
        if start > 0 {
            assert(kept[start - 1] == chars@[start - 1]);
        }
        lemma_run(kept, start as int);
        assert(text@.subrange(start as int, end as int) =~= kept.skip(start as int));
    }
    let token: &str = text.substring_char(start, end);
    if is_outpoint_text(token) {
        Some(token.to_owned())
    } else {
        None
    }
}

/// Mutinynet Arkade default VTXO whose owner is the standard BIP341 NUMS key. Both virtual
/// spending paths require the unknown NUMS secret. Each player sends one registration output here;
/// moves return their carrier to the player's own script. The operator may sweep registration
/// backing sats after VTXO expiry.
pub const GAME_ADDRESS: &'static str =
    "tark1qqcpq7yq3e8hhsx6ml3fud93m7827qggaurtzu3zwsr4a0qs0gf85xacghv2fqfrv43e4mgekvqq6ul7u65wm8u7tk3t67kl9syxt822nw9wzn";

/// The operator that the game is pinned to.
pub const MUTINYNET_SERVER: &'static str = "https://mutinynet.arkade.sh";

pub const MAX_INPUT_QUEUE: usize = 1;

pub const INDEX_PAGE_SIZE: i32 = 500;

pub const PLAYER_SCRIPT_BATCH_SIZE: usize = 20;

pub const REGISTRY_POLL_INTERVAL_MS: u64 = 500;

pub const WALLET_DIAGNOSTICS_INTERVAL_MS: u64 = 1_000;

pub const FULL_GAME_SCAN_INTERVAL_MS: u64 = 30_000;

pub const MIN_INPUT_LIFETIME_SECS: i64 = 3_600;

pub const PENDING_JOURNAL_VERSION: u8 = 3;

pub const MAX_PENDING_JOURNAL_BYTES: usize = 2_000_000;

/// The number of transactions that are asked for at once.
pub const TX_BATCH_SIZE: usize = 40;

#[derive(Clone, Copy, Debug, PartialEq, Eq, Structural)]
pub enum Phase {
    FundWallet,
    Issuing,
    Syncing,
    Playing,
    OutOfMoves,
}

/// The game as one player sees it.
pub struct GameApp {
    server: String,
    params: ServerParams,
    player_address: String,
    player_script: String,
    game_address: String,
    game_script: String,
    phase: Phase,
    move_assets: Option<[AssetId; 6]>,
    move_pack_created_at: Option<i64>,
    move_balances: [u64; 6],
    carrier_available: bool,
    issuance_visible: bool,
    funding_ready: bool,
    next_sequence: u32,
    pending_dirs: Vec<u8>,
    sending: bool,
    pending_action: Option<PendingAction>,
    pending_needs_recovery: bool,
    events: Vec<ActionEvent>,
    registered_players: Table<Txid, String>,
    invalid_registrations: KeySet<Txid>,
    seen_registry_outputs: KeySet<OutPoint>,
    unresolved_registry_outputs: Table<OutPoint, VtxoRecord>,
    seen_player_outputs: KeySet<OutPoint>,
    unresolved_player_outputs: Table<OutPoint, VtxoRecord>,
    seen_move_txs: KeySet<Txid>,
    tx_cache: Table<Txid, Psbt>,
    fully_scanned_player_scripts: TextSet,
    initial_registry_sync: bool,
    initial_player_sync: bool,
    registry_sync_ms: u64,
    full_game_sync_ms: u64,
    excluded_outpoints: TextSet,
    balance_cache: u64,
    wallet_records: Vec<VtxoRecord>,
    wallet_sync_ms: u64,
    last_sync_ms: u64,
    last_error: Option<String>,
    log: Vec<String>,
}

/// What a `GameApp` holds.
#[verifier::ext_equal]
pub struct App {
    pub server: Seq<char>,
    pub params: Params,
    pub player_address: Seq<char>,
    pub player_script: Seq<char>,
    pub game_address: Seq<char>,
    pub game_script: Seq<char>,
    pub phase: Phase,
    pub move_assets: Option<Seq<AssetId>>,
    pub move_pack_created_at: Option<i64>,
    pub move_balances: Seq<u64>,
    pub carrier_available: bool,
    pub issuance_visible: bool,
    pub funding_ready: bool,
    pub next_sequence: u32,
    pub pending_dirs: Seq<u8>,
    pub sending: bool,
    pub pending_action: Option<Pending>,
    pub pending_needs_recovery: bool,
    pub events: Seq<ActionEvent>,
    pub registered_players: Map<Txid, Seq<char>>,
    pub invalid_registrations: Set<Txid>,
    pub seen_registry_outputs: Set<OutPoint>,
    pub unresolved_registry_outputs: Map<OutPoint, Record>,
    pub seen_player_outputs: Set<OutPoint>,
    pub unresolved_player_outputs: Map<OutPoint, Record>,
    pub seen_move_txs: Set<Txid>,
    pub tx_cache: Map<Txid, Signed>,
    pub fully_scanned_player_scripts: Set<Seq<char>>,
    pub initial_registry_sync: bool,
    pub initial_player_sync: bool,
    pub registry_sync_ms: u64,
    pub full_game_sync_ms: u64,
    pub excluded_outpoints: Set<Seq<char>>,
    pub balance_cache: u64,
    pub wallet_records: Seq<Record>,
    pub wallet_sync_ms: u64,
    pub last_sync_ms: u64,
    pub last_error: Option<Seq<char>>,
    pub log: Seq<Seq<char>>,
}

pub open spec fn opt_assets(assets: Option<[AssetId; 6]>) -> Option<Seq<AssetId>> {
    match assets {
        Some(assets) => Some(assets@),
        None => None,
    }
}

impl View for GameApp {
    type V = App;

    closed spec fn view(&self) -> App {
        App {
            server: self.server@,
            params: self.params@,
            player_address: self.player_address@,
            player_script: self.player_script@,
            game_address: self.game_address@,
            game_script: self.game_script@,
            phase: self.phase,
            move_assets: opt_assets(self.move_assets),
            move_pack_created_at: self.move_pack_created_at,
            move_balances: self.move_balances@,
            carrier_available: self.carrier_available,
            issuance_visible: self.issuance_visible,
            funding_ready: self.funding_ready,
            next_sequence: self.next_sequence,
            pending_dirs: self.pending_dirs@,
            sending: self.sending,
            pending_action: pending::opt_pending(self.pending_action),
            pending_needs_recovery: self.pending_needs_recovery,
            events: self.events@,
            registered_players: self.registered_players@,
            invalid_registrations: self.invalid_registrations@,
            seen_registry_outputs: self.seen_registry_outputs@,
            unresolved_registry_outputs: self.unresolved_registry_outputs@,
            seen_player_outputs: self.seen_player_outputs@,
            unresolved_player_outputs: self.unresolved_player_outputs@,
            seen_move_txs: self.seen_move_txs@,
            tx_cache: self.tx_cache@,
            fully_scanned_player_scripts: self.fully_scanned_player_scripts@,
            initial_registry_sync: self.initial_registry_sync,
            initial_player_sync: self.initial_player_sync,
            registry_sync_ms: self.registry_sync_ms,
            full_game_sync_ms: self.full_game_sync_ms,
            excluded_outpoints: self.excluded_outpoints@,
            balance_cache: self.balance_cache,
            wallet_records: arkade::records_view(self.wallet_records@),
            wallet_sync_ms: self.wallet_sync_ms,
            last_sync_ms: self.last_sync_ms,
            last_error: text::opt_text(self.last_error),
            log: text::texts(self.log@),
        }
    }
}

impl App {
    /// What always holds: actions have one of the six codes, at most one waits, and the log is
    /// bounded.
    pub open spec fn wf(self) -> bool {
        &&& self.pending_dirs.len() <= MAX_INPUT_QUEUE
        &&& forall|i: int| 0 <= i < self.pending_dirs.len() ==> #[trigger] self.pending_dirs[i] < 6
        &&& self.pending_action matches Some(action) ==> match action.purpose {
            Purpose::Move(direction, _) => direction < 6,
            _ => true,
        }
        &&& self.move_balances.len() == 6
        &&& self.move_assets matches Some(assets) ==> assets.len() == 6
        &&& self.log.len() <= 100
    }

    /// The issuance of the active assets, which is the player's id.
    pub open spec fn player_id(self) -> Option<Txid> {
        match self.move_assets {
            Some(assets) => Some(assets[0].txid),
            None => None,
        }
    }

    /// With one line more in the log, of which the last hundred are kept.
    pub open spec fn logged(self, line: Seq<char>) -> App {
        let log = self.log.push(line);
        App {
            log: if log.len() > 100 {
                log.drop_first()
            } else {
                log
            },
            ..self
        }
    }

    /// What one registration and one carrier cost.
    pub open spec fn required(self) -> u64 {
        if self.params.dust_sats * 2 <= u64::MAX {
            (self.params.dust_sats * 2) as u64
        } else {
            u64::MAX
        }
    }

    /// With an error reported, unless it is the one reported last.
    pub open spec fn reported(self, action: Seq<char>, error: Seq<char>) -> App {
        let line = action + ": "@ + error;
        if self.last_error == Some(line) {
            self
        } else {
            App { last_error: Some(line), ..self.logged(line) }
        }
    }

    /// With the error of a transaction that could not be sent: an output that the operator
    /// reports as spent is not used again.
    pub open spec fn send_failed(self, action: Seq<char>, error: Seq<char>) -> App {
        let noted = match spent_outpoint(error) {
            Some(outpoint) => App {
                excluded_outpoints: self.excluded_outpoints.insert(outpoint),
                ..self
            },
            None => self,
        };
        noted.reported(action, error)
    }
}

/// The first eight digits of a transaction id.
pub open spec fn short(txid: Txid) -> Seq<char> {
    txid.text().take(8)
}

fn short_txid(txid: &Txid) -> (text: String)
    ensures
        text@ == short(*txid),
{
    let shown: String = txid.to_string();
    proof {
        text::lemma_hex_text_len(txid.bytes@.reverse());
        assert(shown@.subrange(0, 8) =~= shown@.take(8));
    }
    shown.as_str().substring_char(0, 8).to_owned()
}

/// Three texts one behind the other.
fn line3(a: &str, b: &str, c: &str) -> (line: String)
    ensures
        line@ == a@ + b@ + c@,
{
    let mut line: String = a.to_owned();
    line.append(b);
    line.append(c);
    line
}

/// Why a game cannot be started.
#[derive(Clone, Copy, Debug, PartialEq, Eq, Structural)]
pub enum StartError {
    /// The operator's limits do not allow an asset packet plus a receipt.
    OperatorLimits,
    /// The operator is not the one that the game is pinned to.
    UnsupportedServer,
    /// The registry contract cannot be built.
    Registry,
    /// The registry contract is not the pinned one.
    RegistryMismatch,
    /// The player's contract cannot be built.
    PlayerContract,
}

/// The state of a new game.
pub open spec fn started(
    owner: Seq<u8>,
    server: Seq<char>,
    params: ServerParams,
) -> Result<App, StartError> {
    if params.max_op_return_outputs < 2 || params.vtxo_min_sats > params.dust_sats {
        Err(StartError::OperatorLimits)
    } else if server != MUTINYNET_SERVER@ || params.network_name@ != "mutinynet"@ {
        Err(StartError::UnsupportedServer)
    } else {
        match address::contract_of(address::NUMS_KEY@, params) {
            None => Err(StartError::Registry),
            Some(registry) => if registry.0 != GAME_ADDRESS@ {
                Err(StartError::RegistryMismatch)
            } else {
                match address::contract_of(owner, params) {
                    None => Err(StartError::PlayerContract),
                    Some(player) => Ok(
                        App {
                            server,
                            params: params@,
                            player_address: player.0,
                            player_script: text::hex_text(player.1),
                            game_address: registry.0,
                            game_script: text::hex_text(registry.1),
                            phase: Phase::FundWallet,
                            move_assets: None,
                            move_pack_created_at: None,
                            move_balances: seq![0u64, 0u64, 0u64, 0u64, 0u64, 0u64],
                            carrier_available: false,
                            issuance_visible: false,
                            funding_ready: false,
                            next_sequence: 0,
                            pending_dirs: Seq::empty(),
                            sending: false,
                            pending_action: None,
                            pending_needs_recovery: false,
                            events: Seq::empty(),
                            registered_players: Map::empty(),
                            invalid_registrations: Set::empty(),
                            seen_registry_outputs: Set::empty(),
                            unresolved_registry_outputs: Map::empty(),
                            seen_player_outputs: Set::empty(),
                            unresolved_player_outputs: Map::empty(),
                            seen_move_txs: Set::empty(),
                            tx_cache: Map::empty(),
                            fully_scanned_player_scripts: Set::empty(),
                            initial_registry_sync: false,
                            initial_player_sync: false,
                            registry_sync_ms: 0,
                            full_game_sync_ms: 0,
                            excluded_outpoints: Set::empty(),
                            balance_cache: 0,
                            wallet_records: Seq::empty(),
                            wallet_sync_ms: 0,
                            last_sync_ms: 0,
                            last_error: None,
                            log: seq![
                                "connected to "@ + params.network_name@ + " at "@ + server
                                    + "; watching registry "@ + registry.0,
                            ],
                        },
                    ),
                }
            },
        }
    }
}

impl GameApp {
    /// A game of the player with the given x-only key at an operator.
    pub fn new(owner: &[u8; 32], rest: &ArkadeRest, params: ServerParams) -> (app: Result<
        GameApp,
        StartError,
    >)
        ensures
            match app {
                Ok(app) => started(owner@, rest@, params) == Ok::<App, StartError>(app@)
                    && app@.wf(),
                Err(error) => started(owner@, rest@, params) == Err::<App, StartError>(error),
            },
    {
        if params.max_op_return_outputs < 2 || params.vtxo_min_sats > params.dust_sats {
            return Err(StartError::OperatorLimits);
        }
        if !text::same_text(rest.base(), MUTINYNET_SERVER) || !text::same_text(
            params.network_name.as_str(),
            "mutinynet",
        ) {
            return Err(StartError::UnsupportedServer);
        }
        let registry: Contract = match address::nums_registry_address(&params) {
            Some(registry) => registry,
            None => {
                return Err(StartError::Registry);
            },
        };
        if !text::same_text(registry.address.as_str(), GAME_ADDRESS) {
            return Err(StartError::RegistryMismatch);
        }
        let player: Contract = match address::player_contract(owner, &params) {
            Some(player) => player,
            None => {
                return Err(StartError::PlayerContract);
            },
        };
        let mut line: String = line3("connected to ", params.network_name.as_str(), " at ");
        line.append(rest.base());
        line.append("; watching registry ");
        line.append(registry.address.as_str());
        let ghost first = line@;
        let mut log: Vec<String> = Vec::new();
        log.push(line);
        let app: GameApp = GameApp {
            server: rest.base().to_owned(),
            player_address: player.address,
            player_script: text::hex_string(&player.script),
            game_address: registry.address,
            game_script: text::hex_string(&registry.script),
            params,
            phase: Phase::FundWallet,
            move_assets: None,
            move_pack_created_at: None,
            move_balances: [0, 0, 0, 0, 0, 0],
            carrier_available: false,
            issuance_visible: false,
            funding_ready: false,
            next_sequence: 0,
            pending_dirs: Vec::new(),
            sending: false,
            pending_action: None,
            pending_needs_recovery: false,
            events: Vec::new(),
            registered_players: Table::new(),
            invalid_registrations: KeySet::new(),
            seen_registry_outputs: KeySet::new(),
            unresolved_registry_outputs: Table::new(),
            seen_player_outputs: KeySet::new(),
            unresolved_player_outputs: Table::new(),
            seen_move_txs: KeySet::new(),
            tx_cache: Table::new(),
            fully_scanned_player_scripts: TextSet::new(),
            initial_registry_sync: false,
            initial_player_sync: false,
            registry_sync_ms: 0,
            full_game_sync_ms: 0,
            excluded_outpoints: TextSet::new(),
            balance_cache: 0,
            wallet_records: Vec::new(),
            wallet_sync_ms: 0,
            last_sync_ms: 0,
            last_error: None,
            log,
        };
        proof {
            let expected = started(owner@, rest@, params)->Ok_0;
            assert(app@.log =~= seq![first]);
            assert(app@.move_balances =~= seq![0u64, 0u64, 0u64, 0u64, 0u64, 0u64]);
            assert(app@ =~= expected);
        }
        Ok(app)
    }

    pub fn player_address(&self) -> (address: &str)
        ensures
            address@ == self@.player_address,
    {
        self.player_address.as_str()
    }

    pub fn player_script(&self) -> (script: &str)
        ensures
            script@ == self@.player_script,
    {
        self.player_script.as_str()
    }

    pub fn game_address(&self) -> (address: &str)
        ensures
            address@ == self@.game_address,
    {
        self.game_address.as_str()
    }

    pub fn params(&self) -> (params: &ServerParams)
        ensures
            params@ == self@.params,
    {
        &self.params
    }

    pub fn phase(&self) -> (phase: Phase)
        ensures
            phase == self@.phase,
    {
        self.phase
    }

    pub fn required_funding(&self) -> (sats: u64)
        ensures
            sats == self@.required(),
    {
        if self.params.dust_sats <= u64::MAX / 2 {
            self.params.dust_sats * 2
        } else {
            u64::MAX
        }
    }

    pub fn player_id(&self) -> (id: Option<Txid>)
        ensures
            id == self@.player_id(),
    {
        match &self.move_assets {
            Some(assets) => Some(assets[0].txid),
            None => None,
        }
    }

    fn log_line(&mut self, line: String)
        requires
            old(self)@.wf(),
        ensures
            final(self)@ == old(self)@.logged(line@),
            final(self)@.wf(),
    {
        let ghost was = text::texts(self.log@);
        self.log.push(line);
        assert(text::texts(self.log@) =~= was.push(line@));
        if self.log.len() > 100 {
            let ghost long = self.log@;
            let _ = self.log.remove(0);
            assert(text::texts(self.log@) =~= text::texts(long).drop_first());
        }
        assert(self@ =~= old(self)@.logged(line@));
    }

    fn report_error(&mut self, action: &str, error: &str)
        requires
            old(self)@.wf(),
        ensures
            final(self)@ == old(self)@.reported(action@, error@),
            final(self)@.wf(),
    {
        let line: String = line3(action, ": ", error);
        let known: bool = match &self.last_error {
            Some(last) => *last == line,
            None => false,
        };
        if !known {
            self.log_line(line.clone());
            self.last_error = Some(line);
            assert(self@ =~= old(self)@.reported(action@, error@));
        }
    }

    fn clear_error(&mut self)
        ensures
            final(self)@ == (App { last_error: None, ..old(self)@ }),
    {
        self.last_error = None;
        assert(self@ =~= App { last_error: None, ..old(self)@ });
    }

    fn handle_send_error(&mut self, action: &str, error: &str)
        requires
            old(self)@.wf(),
        ensures
            final(self)@ == old(self)@.send_failed(action@, error@),
            final(self)@.wf(),
    {
        match extract_spent_outpoint(error) {
            Some(outpoint) => {
                self.excluded_outpoints.insert(outpoint.as_str());
                assert(self@ =~= App {
                    excluded_outpoints: old(self)@.excluded_outpoints.insert(outpoint@),
                    ..old(self)@
                });
            },
            None => {},
        }
        self.report_error(action, error);
    }
}

/// The time at which an output has to be usable still, in seconds: an hour from now.
pub open spec fn lifetime_end(now_ms: u64) -> int {
    now_ms / 1_000 + MIN_INPUT_LIFETIME_SECS
}

/// An output that can be spent safely: neither swept nor unrolled, and not expiring within the
/// hour.
pub open spec fn safe_input(record: Record, now_ms: u64) -> bool {
    !record.is_swept && !record.is_unrolled && match record.expires_at {
        Some(expires_at) => expires_at > lifetime_end(now_ms),
        None => false,
    }
}

pub fn safe_wallet_input(record: &VtxoRecord, now_ms: u64) -> (safe: bool)
    ensures
        safe == safe_input(record@, now_ms),
{
    if record.is_swept || record.is_unrolled {
        return false;
    }
    let now: i64 = (now_ms / 1_000) as i64;
    match record.expires_at {
        Some(expires_at) => expires_at > now + MIN_INPUT_LIFETIME_SECS,
        None => false,
    }
}

/// The sum of the amounts.
pub open spec fn total_sats(records: Seq<Record>) -> nat
    decreases records.len(),
{
    if records.len() == 0 {
        0
    } else {
        total_sats(records.drop_last()) + records.last().amount_sats as nat
    }
}

/// The smaller of a sum and the largest amount.
pub open spec fn saturated(sum: nat) -> u64 {
    if sum <= u64::MAX {
        sum as u64
    } else {
        u64::MAX
    }
}

pub proof fn lemma_total_sats_take(records: Seq<Record>, n: int)
    requires
        0 <= n <= records.len(),
    ensures
        total_sats(records.take(n)) <= total_sats(records),
    decreases records.len() - n,
{
    if n < records.len() {
        assert(records.take(n + 1).drop_last() =~= records.take(n));
        lemma_total_sats_take(records, n + 1);
    } else {
        assert(records.take(n) =~= records);
    }
}

/// The sum of the amounts, where it fits.
pub fn total_amount(records: &[VtxoRecord]) -> (total: Option<u64>)
    ensures
        match total {
            Some(total) => total == total_sats(arkade::records_view(records@)),
            None => total_sats(arkade::records_view(records@)) > u64::MAX,
        },
{
    let ghost all = arkade::records_view(records@);
    let mut total: u64 = 0;
    let mut i: usize = 0;
    assert(all.take(0) =~= Seq::empty());
    while i < records.len()
        invariant
            i <= records@.len(),
            all == arkade::records_view(records@),
            total == total_sats(all.take(i as int)),
        decreases records@.len() - i,
    {
        proof {
            assert(all.take(i + 1).drop_last() =~= all.take(i as int));
            assert(all.take(i + 1).last() == records@[i as int]@);
            lemma_total_sats_take(all, i + 1);
        }
        if records[i].amount_sats > u64::MAX - total {
            return None;
        }
        total += records[i].amount_sats;
        i += 1;
    }
    assert(all.take(all.len() as int) =~= all);
    Some(total)
}

impl App {
    /// Whether an output was reported as spent and is not used again.
    pub open spec fn excludes(self, outpoint: OutPoint) -> bool {
        self.excluded_outpoints.contains(outpoint.text())
    }

    /// An output that can pay for a registration: safe to spend, without assets.
    pub open spec fn can_fund(self, record: Record, now_ms: u64) -> bool {
        record.assets.len() == 0 && safe_input(record, now_ms) && !self.excludes(record.outpoint)
    }

    pub open spec fn funding_candidates(self, spendable: Seq<Record>, now_ms: u64) -> Seq<Record> {
        spendable.filter(|r: Record| self.can_fund(r, now_ms))
    }

    pub open spec fn minimum_change(self) -> u64 {
        if self.params.vtxo_min_sats > 1 {
            self.params.vtxo_min_sats
        } else {
            1
        }
    }

    /// The inputs of a registration: the smallest single candidate with a valid amount; else, from
    /// the largest candidate on, as few as reach a valid total.
    pub open spec fn funding(self, spendable: Seq<Record>, now_ms: u64) -> Option<Seq<Record>> {
        let candidates = self.funding_candidates(spendable, now_ms);
        match smallest_valid(candidates, self.required(), self.minimum_change()) {
            Some(record) => Some(seq![record]),
            None => first_cover(largest_first(candidates), 1, self.required(), self.minimum_change()),
        }
    }
}

/// The candidate with the smallest valid amount; of equal ones the first.
pub open spec fn smallest_valid(
    candidates: Seq<Record>,
    required: u64,
    minimum_change: u64,
) -> Option<Record>
    decreases candidates.len(),
{
    if candidates.len() == 0 {
        None
    } else {
        let best = smallest_valid(candidates.drop_last(), required, minimum_change);
        let last = candidates.last();
        if total_is_valid(last.amount_sats, required, minimum_change) && (best is None
            || last.amount_sats < best.unwrap().amount_sats) {
            Some(last)
        } else {
            best
        }
    }
}

/// A descending sequence with one record more, placed behind those that are not smaller.
pub open spec fn insert_descending(sorted: Seq<Record>, record: Record) -> Seq<Record>
    decreases sorted.len(),
{
    if sorted.len() > 0 && sorted.last().amount_sats < record.amount_sats {
        insert_descending(sorted.drop_last(), record).push(sorted.last())
    } else {
        sorted.push(record)
    }
}

/// Records by descending amount; equal ones stay as given.
pub open spec fn largest_first(records: Seq<Record>) -> Seq<Record>
    decreases records.len(),
{
    if records.len() == 0 {
        records
    } else {
        insert_descending(largest_first(records.drop_last()), records.last())
    }
}

/// The shortest prefix of at least `n` records whose total is valid.
pub open spec fn first_cover(
    sorted: Seq<Record>,
    n: nat,
    required: u64,
    minimum_change: u64,
) -> Option<Seq<Record>>
    decreases sorted.len() + 1 - n,
{
    if n > sorted.len() {
        None
    } else if total_is_valid(
        saturated(total_sats(sorted.take(n as int))),
        required,
        minimum_change,
    ) {
        Some(sorted.take(n as int))
    } else {
        first_cover(sorted, n + 1, required, minimum_change)
    }
}

proof fn lemma_insert_descending_split(sorted: Seq<Record>, record: Record, n: int)
    requires
        0 <= n <= sorted.len(),
        forall|k: int|
            n <= k < sorted.len() ==> (#[trigger] sorted[k]).amount_sats < record.amount_sats,
    ensures
        insert_descending(sorted, record) == insert_descending(sorted.take(n), record)
            + sorted.skip(n),
    decreases sorted.len() - n,
{
    if n == sorted.len() {
        assert(sorted.take(n) =~= sorted);
        assert(insert_descending(sorted, record) + sorted.skip(n) =~= insert_descending(
            sorted,
            record,
        ));
    } else {
        let shorter = sorted.drop_last();
        assert(sorted[sorted.len() - 1].amount_sats < record.amount_sats);
        assert forall|k: int| n <= k < shorter.len() implies (#[trigger] shorter[k]).amount_sats
            < record.amount_sats by {
            assert(shorter[k] == sorted[k]);
        }
        lemma_insert_descending_split(shorter, record, n);
        assert(shorter.take(n) =~= sorted.take(n));
        assert(shorter.skip(n).push(sorted.last()) =~= sorted.skip(n));
        assert(insert_descending(sorted, record) =~= insert_descending(sorted.take(n), record)
            + sorted.skip(n));
    }
}

fn insert_by_amount(sorted: &mut Vec<VtxoRecord>, record: VtxoRecord)
    ensures
        arkade::records_view(final(sorted)@) == insert_descending(
            arkade::records_view(old(sorted)@),
            record@,
        ),
{
    let ghost all = arkade::records_view(sorted@);
    let mut i: usize = sorted.len();
    while i > 0 && sorted[i - 1].amount_sats < record.amount_sats
        invariant
            i <= sorted@.len(),
            sorted@ == old(sorted)@,
            all == arkade::records_view(sorted@),
            forall|k: int|
                i <= k < all.len() ==> (#[trigger] all[k]).amount_sats < record@.amount_sats,
        decreases i,
    {
        assert(all[i - 1] == sorted@[i - 1]@);
        i -= 1;
    }
    let ghost added = record@;
    proof {
        lemma_insert_descending_split(all, added, i as int);
        let head = all.take(i as int);
        if i > 0 {
            assert(head.last() == sorted@[i - 1]@);
        }
        assert(all.insert(i as int, added) =~= head.push(added) + all.skip(i as int));
    }
    sorted.insert(i, record);
    assert(arkade::records_view(sorted@) =~= all.insert(i as int, added));
}

impl GameApp {
    fn excludes(&self, outpoint: OutPoint) -> (excluded: bool)
        ensures
            excluded == self@.excludes(outpoint),
    {
        let shown: String = outpoint.to_string();
        self.excluded_outpoints.contains(shown.as_str())
    }

    /// The inputs that pay for a registration.
    pub fn registration_inputs(&self, spendable: &[VtxoRecord], now_ms: u64) -> (inputs: Option<
        Vec<VtxoRecord>,
    >)
        ensures
            match inputs {
                Some(inputs) => self@.funding(arkade::records_view(spendable@), now_ms) == Some(
                    arkade::records_view(inputs@),
                ),
                None => self@.funding(arkade::records_view(spendable@), now_ms) is None,
            },
    {
        let required: u64 = self.required_funding();
        let minimum_change: u64 = if self.params.vtxo_min_sats > 1 {
            self.params.vtxo_min_sats
        } else {
            1
        };
        let ghost all = arkade::records_view(spendable@);
        let ghost model = self@;
        let ghost wanted = |r: Record| model.can_fund(r, now_ms);
        let mut best: Option<VtxoRecord> = None;
        let mut sorted: Vec<VtxoRecord> = Vec::new();
        let mut i: usize = 0;
        proof {
            crate::seqs::lemma_filter_none(all, wanted);
            assert(arkade::records_view(sorted@) =~= Seq::<Record>::empty());
        }
        while i < spendable.len()
            invariant
                i <= spendable@.len(),
                all == arkade::records_view(spendable@),
                model == self@,
                wanted == (|r: Record| model.can_fund(r, now_ms)),
                required == model.required(),
                minimum_change == model.minimum_change(),
                smallest_valid(all.take(i as int).filter(wanted), required, minimum_change)
                    == match best {
                    Some(record) => Some(record@),
                    None => None,
                },
                arkade::records_view(sorted@) == largest_first(all.take(i as int).filter(wanted)),
            decreases spendable@.len() - i,
        {
            let record: &VtxoRecord = &spendable[i];
            proof {
                crate::seqs::lemma_filter_next(all, i as int, wanted);
                assert(all[i as int] == record@);
                let was = all.take(i as int).filter(wanted);
                assert(was.push(record@).drop_last() =~= was);
            }
            if record.assets.len() == 0 && safe_wallet_input(record, now_ms) && !self.excludes(
                record.outpoint,
            ) {
                if valid_registration_total(record.amount_sats, required, minimum_change) {
                    let better: bool = match &best {
                        Some(known) => record.amount_sats < known.amount_sats,
                        None => true,
                    };
                    if better {
                        best = Some(record.clone());
                    }
                }
                insert_by_amount(&mut sorted, record.clone());
            }
            i += 1;
        }
        assert(all.take(all.len() as int) =~= all);
        if let Some(record) = best {
            let ghost only = record@;
            let mut inputs: Vec<VtxoRecord> = Vec::new();
            inputs.push(record);
            assert(arkade::records_view(inputs@) =~= seq![only]);
            return Some(inputs);
        }
        let ghost order = arkade::records_view(sorted@);
        let mut selected: Vec<VtxoRecord> = Vec::new();
        let mut total: u64 = 0;
        let mut n: usize = 0;
        proof {
            assert(order.take(0) =~= Seq::empty());
            assert(arkade::records_view(selected@) =~= order.take(0));
        }
        while n < sorted.len()
            invariant
                n <= sorted@.len(),
                order == arkade::records_view(sorted@),
                arkade::records_view(selected@) == order.take(n as int),
                total == saturated(total_sats(order.take(n as int))),
                first_cover(order, 1, required, minimum_change) == first_cover(
                    order,
                    (n + 1) as nat,
                    required,
                    minimum_change,
                ),
                self@.funding(all, now_ms) == first_cover(order, 1, required, minimum_change),
                all == arkade::records_view(spendable@),
            decreases sorted@.len() - n,
        {
            proof {
                assert(order.take(n + 1).drop_last() =~= order.take(n as int));
                assert(order.take(n + 1).last() == sorted@[n as int]@);
                assert(order.take(n + 1) =~= order.take(n as int).push(sorted@[n as int]@));
            }
            total = total.saturating_add(sorted[n].amount_sats);
            let ghost was = arkade::records_view(selected@);
            selected.push(sorted[n].clone());
            assert(arkade::records_view(selected@) =~= was.push(sorted@[n as int]@));
            if valid_registration_total(total, required, minimum_change) {
                return Some(selected);
            }
            n += 1;
        }
        None
    }
}

/// The units of an asset among some assets.
pub open spec fn units_of(assets: Seq<(Seq<char>, u64)>, id: Seq<char>) -> nat
    decreases assets.len(),
{
    if assets.len() == 0 {
        0
    } else {
        units_of(assets.drop_last(), id) + if assets.last().0 == id {
            assets.last().1 as nat
        } else {
            0
        }
    }
}

/// The units of an asset in all records.
pub open spec fn units_in_all(records: Seq<Record>, id: Seq<char>) -> nat
    decreases records.len(),
{
    if records.len() == 0 {
        0
    } else {
        units_in_all(records.drop_last(), id) + units_of(records.last().assets, id)
    }
}

/// Whether a record lists an asset, with any amount.
pub open spec fn lists_asset(record: Record, id: Seq<char>) -> bool {
    exists|i: int| 0 <= i < record.assets.len() && (#[trigger] record.assets[i]).0 == id
}

/// Whether a record holds at least one unit of an asset.
pub open spec fn holds_unit(record: Record, id: Seq<char>) -> bool {
    exists|i: int|
        0 <= i < record.assets.len() && (#[trigger] record.assets[i]).0 == id
            && record.assets[i].1 > 0
}

/// Whether a record can carry the next action: exactly dust, safe to spend, with a unit of one of
/// the assets.
pub open spec fn is_carrier(record: Record, assets: Seq<AssetId>, dust: u64, now_ms: u64) -> bool {
    record.amount_sats == dust && safe_input(record, now_ms) && exists|d: int|
        0 <= d < assets.len() && holds_unit(record, (#[trigger] assets[d]).text())
}

impl App {
    /// After a look at the spendable outputs: the balance, whether a registration can be paid for,
    /// and the units of each action. Without assets the wallet waits for funds.
    pub open spec fn wallet_refreshed(self, spendable: Seq<Record>, now_ms: u64) -> App {
        let funded = App {
            balance_cache: total_sats(spendable) as u64,
            funding_ready: self.funding(spendable, now_ms) is Some,
            ..self
        };
        match self.move_assets {
            None => App { carrier_available: false, phase: Phase::FundWallet, ..funded },
            Some(assets) => App {
                carrier_available: exists|i: int|
                    0 <= i < spendable.len() && is_carrier(
                        #[trigger] spendable[i],
                        assets,
                        self.params.dust_sats,
                        now_ms,
                    ),
                issuance_visible: self.issuance_visible || exists|i: int, d: int|
                    0 <= i < spendable.len() && 0 <= d < assets.len() && lists_asset(
                        #[trigger] spendable[i],
                        (#[trigger] assets[d]).text(),
                    ),
                move_balances: Seq::new(
                    assets.len(),
                    |d: int| saturated(units_in_all(spendable, assets[d].text())),
                ),
                ..funded
            },
        }
    }
}

/// Adds up the units of an asset in a record. Tells whether the asset is listed, and whether a
/// unit is held.
fn scan_record(record: &VtxoRecord, id: &str, sum: u64) -> (found: (u64, bool, bool))
    ensures
        found.0 == saturated(sum as nat + units_of(record@.assets, id@)),
        found.1 == lists_asset(record@, id@),
        found.2 == holds_unit(record@, id@),
{
    let ghost assets = record@.assets;
    let mut total: u64 = sum;
    let mut listed: bool = false;
    let mut held: bool = false;
    let mut i: usize = 0;
    assert(assets.take(0) =~= Seq::empty());
    while i < record.assets.len()
        invariant
            i <= record.assets@.len(),
            assets == record@.assets,
            assets == arkade::amounts_view(record.assets@),
            total == saturated(sum as nat + units_of(assets.take(i as int), id@)),
            listed == exists|k: int| 0 <= k < i && (#[trigger] assets[k]).0 == id@,
            held == exists|k: int|
                0 <= k < i && (#[trigger] assets[k]).0 == id@ && assets[k].1 > 0,
        decreases record.assets@.len() - i,
    {
        proof {
            assert(assets.take(i + 1).drop_last() =~= assets.take(i as int));
            assert(assets.take(i + 1).last() == assets[i as int]);
            assert(assets[i as int] == (record.assets@[i as int].0@, record.assets@[i as int].1));
        }
        if text::same_text(record.assets[i].0.as_str(), id) {
            total = total.saturating_add(record.assets[i].1);
            listed = true;
            if record.assets[i].1 > 0 {
                held = true;
            }
        }
        i += 1;
    }
    assert(assets.take(assets.len() as int) =~= assets);
    (total, listed, held)
}

impl GameApp {
    /// Takes in the spendable outputs of the wallet.
    pub fn refresh_wallet_state(&mut self, spendable: &[VtxoRecord], now_ms: u64)
        requires
            old(self)@.wf(),
            total_sats(arkade::records_view(spendable@)) <= u64::MAX,
        ensures
            final(self)@ == old(self)@.wallet_refreshed(arkade::records_view(spendable@), now_ms),
            final(self)@.wf(),
    {
        let ghost all = arkade::records_view(spendable@);
        let ghost model = self@;
        let funding_ready: bool = self.registration_inputs(spendable, now_ms).is_some();
        self.balance_cache = match total_amount(spendable) {
            Some(total) => total,
            None => 0,
        };
        self.funding_ready = funding_ready;
        let assets: [AssetId; 6] = match self.move_assets {
            Some(assets) => assets,
            None => {
                self.carrier_available = false;
                self.phase = Phase::FundWallet;
                assert(self@ =~= model.wallet_refreshed(all, now_ms));
                return ;
            },
        };
        let dust: u64 = self.params.dust_sats;
        let mut balances: [u64; 6] = [0, 0, 0, 0, 0, 0];
        let mut carrier: bool = false;
        let mut visible: bool = false;
        let mut d: usize = 0;
        while d < 6
            invariant
                d <= 6,
                all == arkade::records_view(spendable@),
                dust == model.params.dust_sats,
                forall|k: int|
                    0 <= k < d ==> balances@[k] == saturated(
                        units_in_all(all, #[trigger] assets@[k].text()),
                    ),
                carrier == exists|i: int, k: int|
                    0 <= i < all.len() && 0 <= k < d && all[i].amount_sats == dust && safe_input(
                        all[i],
                        now_ms,
                    ) && #[trigger] holds_unit(all[i], assets@[k].text()),
                visible == exists|i: int, k: int|
                    0 <= i < all.len() && 0 <= k < d && lists_asset(
                        #[trigger] all[i],
                        (#[trigger] assets@[k]).text(),
                    ),
            decreases 6 - d,
        {
            let id: String = assets[d].to_string();
            let mut sum: u64 = 0;
            let mut i: usize = 0;
            let ghost carrier_before = carrier;
            let ghost visible_before = visible;
            let mut carrier_here: bool = false;
            let mut visible_here: bool = false;
            assert(all.take(0) =~= Seq::empty());
            while i < spendable.len()
                invariant
                    i <= spendable@.len(),
                    all == arkade::records_view(spendable@),
                    sum == saturated(units_in_all(all.take(i as int), id@)),
                    carrier_here == exists|k: int|
                        0 <= k < i && all[k].amount_sats == dust && safe_input(all[k], now_ms)
                            && #[trigger] holds_unit(all[k], id@),
                    visible_here == exists|k: int|
                        0 <= k < i && #[trigger] lists_asset(all[k], id@),
                decreases spendable@.len() - i,
            {
                proof {
                    assert(all.take(i + 1).drop_last() =~= all.take(i as int));
                    assert(all.take(i + 1).last() == spendable@[i as int]@);
                    assert(all[i as int] == spendable@[i as int]@);
                }
                let (total, listed, held): (u64, bool, bool) = scan_record(
                    &spendable[i],
                    id.as_str(),
                    sum,
                );
                sum = total;
                if listed {
                    assert(lists_asset(all[i as int], id@));
                    visible_here = true;
                }
                if held && spendable[i].amount_sats == dust && safe_wallet_input(
                    &spendable[i],
                    now_ms,
                ) {
                    assert(holds_unit(all[i as int], id@));
                    carrier_here = true;
                }
                i += 1;
            }
            assert(all.take(all.len() as int) =~= all);
            balances[d] = sum;
            if carrier_here {
                carrier = true;
            }
            if visible_here {
                visible = true;
            }
            proof {
                if carrier_here {
                    let k = choose|k: int|
                        0 <= k < all.len() && all[k].amount_sats == dust && safe_input(
                            all[k],
                            now_ms,
                        ) && #[trigger] holds_unit(all[k], id@);
                    assert(holds_unit(all[k], assets@[d as int].text()));
                }
                if visible_here {
                    let k = choose|k: int|
                        0 <= k < all.len() && #[trigger] lists_asset(all[k], id@);
                    assert(lists_asset(all[k], assets@[d as int].text()));
                }
            }
            d += 1;
        }
        self.carrier_available = carrier;
        if visible {
            self.issuance_visible = true;
        }
        self.move_balances = balances;
        proof {
            let expected = model.wallet_refreshed(all, now_ms);
            assert(self@.move_balances =~= expected.move_balances);
            assert(carrier == expected.carrier_available) by {
                if carrier {
                    let (i, k) = choose|i: int, k: int|
                        0 <= i < all.len() && 0 <= k < 6 && all[i].amount_sats == dust
                            && safe_input(all[i], now_ms) && #[trigger] holds_unit(
                            all[i],
                            assets@[k].text(),
                        );
                    assert(holds_unit(all[i], assets@[k].text()));
                    assert(is_carrier(all[i], assets@, dust, now_ms));
                }
                if expected.carrier_available {
                    let i = choose|i: int|
                        0 <= i < all.len() && is_carrier(
                            #[trigger] all[i],
                            assets@,
                            dust,
                            now_ms,
                        );
                    let k = choose|k: int|
                        0 <= k < assets@.len() && holds_unit(
                            all[i],
                            (#[trigger] assets@[k]).text(),
                        );
                    assert(holds_unit(all[i], assets@[k].text()));
                }
            }
            assert(self@ =~= expected);
        }
    }
}

impl App {
    /// The action of the player that is finalized but not indexed yet.
    pub open spec fn tentative_action(self) -> Option<u8> {
        match self.player_id() {
            Some(player) => first_tentative(self.events, player),
            None => None,
        }
    }

    /// Whether the player can take an action now.
    pub open spec fn can_act(self) -> bool {
        &&& self.phase == Phase::Playing
        &&& !self.sending
        &&& self.pending_action is None
        &&& self.pending_dirs.len() == 0
        &&& self.tentative_action() is None
        &&& self.carrier_available
    }

    /// Whether the player can issue another pack of actions now.
    pub open spec fn can_mint_pack(self) -> bool {
        &&& self.move_assets is Some
        &&& self.funding_ready
        &&& !self.sending
        &&& self.pending_action is None
        &&& self.pending_dirs.len() == 0
    }

    /// The direction of a pending action.
    pub open spec fn pending_direction(self) -> Option<u8> {
        match self.pending_action {
            Some(action) => match action.purpose {
                Purpose::Move(direction, _) => Some(direction),
                _ => None,
            },
            None => None,
        }
    }

    /// The action to preview: the one submitted, else the one queued, else the one not indexed yet.
    pub open spec fn projected_action(self) -> Option<u8> {
        if self.pending_direction() is Some {
            self.pending_direction()
        } else if self.pending_dirs.len() > 0 {
            Some(self.pending_dirs[0])
        } else {
            self.tentative_action()
        }
    }

    /// With the first playable one of some actions queued, if the player can act: one that exists
    /// and of which a unit is left.
    pub open spec fn queued(self, dirs: Seq<u8>) -> App {
        if self.can_act() {
            match first_playable(dirs, self.move_balances) {
                Some(dir) => App { pending_dirs: seq![dir], ..self },
                None => self,
            }
        } else {
            self
        }
    }

    /// The number of canonical actions of the player. There are at most 2^32 of them, a number
    /// that wraps to zero.
    pub open spec fn action_count(self, player: Txid) -> u32 {
        let count = actions::canonical_chain(self.events, player).len();
        if count <= u32::MAX {
            count as u32
        } else {
            0
        }
    }

    /// With the next sequence number at least at the number of canonical actions.
    pub open spec fn reconciled(self) -> App {
        match self.player_id() {
            Some(player) => App {
                next_sequence: if self.action_count(player) > self.next_sequence {
                    self.action_count(player)
                } else {
                    self.next_sequence
                },
                ..self
            },
            None => self,
        }
    }

    /// Whether all actions of the player are known: its script was scanned to the end, and no
    /// output of it is unresolved.
    pub open spec fn history_ready(self) -> bool {
        match self.player_id() {
            Some(player) => self.registered_players.contains_key(player) && {
                let script = self.registered_players[player];
                self.fully_scanned_player_scripts.contains(script) && forall|o: OutPoint|
                    self.unresolved_player_outputs.contains_key(o) ==> text::lower(
                        (#[trigger] self.unresolved_player_outputs[o]).script,
                    ) != text::lower(script)
            },
            None => false,
        }
    }

    /// The output that the action with a sequence number has to spend.
    pub open spec fn predecessor(self, sequence: u32) -> Option<OutPoint> {
        match self.player_id() {
            None => None,
            Some(player) => {
                let chain = actions::canonical_chain(self.events, player);
                if sequence == 0 {
                    Some(actions::first_carrier(player))
                } else if sequence <= chain.len() {
                    Some(actions::carrier_of(chain[sequence - 1].txid))
                } else {
                    None
                }
            },
        }
    }

    /// With a finalized action of the player noted, unless its transaction is known.
    pub open spec fn move_recorded(
        self,
        direction: u8,
        sequence: u32,
        txid: Txid,
        predecessor: OutPoint,
    ) -> App {
        match self.player_id() {
            None => self,
            Some(player) => if self.seen_move_txs.contains(txid) {
                self
            } else {
                App {
                    seen_move_txs: self.seen_move_txs.insert(txid),
                    events: self.events.push(
                        ActionEvent {
                            txid,
                            player,
                            sequence,
                            action: direction,
                            predecessor,
                            created_at: None,
                            local_tentative: true,
                        },
                    ),
                    ..self
                }
            },
        }
    }

    /// With the sequence number behind that of a finalized action.
    pub open spec fn sequence_passed(self, sequence: u32) -> App {
        let next = following(sequence);
        App {
            next_sequence: if next > self.next_sequence {
                next
            } else {
                self.next_sequence
            },
            ..self
        }
    }

    /// With a finalized action of the player noted, its unit spent, and the carrier gone.
    pub open spec fn move_completed(
        self,
        direction: u8,
        sequence: u32,
        txid: Txid,
        predecessor: OutPoint,
    ) -> App {
        let noted = self.move_recorded(direction, sequence, txid, predecessor).sequence_passed(
            sequence,
        );
        let left = noted.move_balances[direction as int];
        App {
            move_balances: noted.move_balances.update(
                direction as int,
                if left > 0 {
                    (left - 1) as u64
                } else {
                    0
                },
            ),
            carrier_available: false,
            ..noted
        }.logged(
            "burned "@ + UPPER_NAMES[direction as int]@ + " #"@ + text::decimal_text(
                following(sequence) as nat,
            ) + " in "@ + short(txid),
        )
    }

    /// With the transactions of a pending action in the cache.
    pub open spec fn tx_cached(self, tx: Prepared) -> App {
        App {
            tx_cache: cached_all(
                self.tx_cache.insert(tx.signed_ark.txid(), tx.signed_ark),
                tx.checkpoints,
            ),
            ..self
        }
    }

    /// After a pending action came through. `confirmed` tells that the operator has finalized it
    /// here; otherwise the wallet showed its effect.
    pub open spec fn finished(self, action: Pending, confirmed: bool) -> App {
        let cached = self.tx_cached(action.tx);
        let txid = action.tx.txid;
        let ending = if action.unknown {
            " appeared in indexer"@
        } else {
            " finalized"@
        };
        let done = match action.purpose {
            Purpose::Issuance(ids) => cached.issuance_done(ids, txid, ending),
            Purpose::Move(direction, sequence) => cached.move_done(
                direction,
                sequence,
                txid,
                confirmed,
                ending,
            ),
            Purpose::Sweep => cached.logged("wallet sweep "@ + short(txid) + ending),
        };
        done.settled()
    }

    /// Without a pending action.
    pub open spec fn settled(self) -> App {
        App { pending_action: None, pending_needs_recovery: false, ..self }
    }

    /// With the assets of an issuance that came through.
    pub open spec fn issuance_done(
        self,
        ids: Seq<AssetId>,
        txid: Txid,
        ending: Seq<char>,
    ) -> App {
        App {
            move_assets: Some(ids),
            registered_players: self.registered_players.insert(txid, self.player_script),
            ..self
        }.logged("issuance "@ + short(txid) + ending)
    }

    /// With an action that came through, where its place in the chain is known.
    pub open spec fn move_done(
        self,
        direction: u8,
        sequence: u32,
        txid: Txid,
        confirmed: bool,
        ending: Seq<char>,
    ) -> App {
        match self.predecessor(sequence) {
            None => self,
            Some(predecessor) => if confirmed {
                self.move_completed(direction, sequence, txid, predecessor)
            } else {
                self.move_recorded(direction, sequence, txid, predecessor).sequence_passed(
                    sequence,
                ).logged("move "@ + short(txid) + ending)
            },
        }
    }
}

/// The names of the actions in capitals.
pub const UPPER_NAMES: [&'static str; 6] = ["W", "D", "S", "A", "BULLET", "LIFE"];

/// The number after a sequence number; the highest one stays.
pub open spec fn following(sequence: u32) -> u32 {
    if sequence < u32::MAX {
        (sequence + 1) as u32
    } else {
        sequence
    }
}

/// The first action of a player that waits for the indexer.
pub open spec fn first_tentative(events: Seq<ActionEvent>, player: Txid) -> Option<u8>
    decreases events.len(),
{
    if events.len() == 0 {
        None
    } else if events[0].player == player && events[0].local_tentative {
        Some(events[0].action)
    } else {
        first_tentative(events.drop_first(), player)
    }
}

/// The first action that exists and of which a unit is left.
pub open spec fn first_playable(dirs: Seq<u8>, balances: Seq<u64>) -> Option<u8>
    decreases dirs.len(),
{
    if dirs.len() == 0 {
        None
    } else if dirs[0] < 6 && balances[dirs[0] as int] > 0 {
        Some(dirs[0])
    } else {
        first_playable(dirs.drop_first(), balances)
    }
}

/// A cache with some transactions more.
pub open spec fn cached_all(cache: Map<Txid, Signed>, psbts: Seq<Signed>) -> Map<Txid, Signed>
    decreases psbts.len(),
{
    if psbts.len() == 0 {
        cache
    } else {
        cached_all(cache, psbts.drop_last()).insert(psbts.last().txid(), psbts.last())
    }
}

fn store_all(cache: &mut Table<Txid, Psbt>, psbts: &[Psbt])
    ensures
        final(cache)@ == cached_all(old(cache)@, psbt::psbts_view(psbts@)),
{
    let ghost all = psbt::psbts_view(psbts@);
    let mut i: usize = 0;
    assert(all.take(0) =~= Seq::empty());
    while i < psbts.len()
        invariant
            i <= psbts@.len(),
            all == psbt::psbts_view(psbts@),
            cache@ == cached_all(old(cache)@, all.take(i as int)),
        decreases psbts@.len() - i,
    {
        proof {
            assert(all.take(i + 1).drop_last() =~= all.take(i as int));
            assert(all.take(i + 1).last() == psbts@[i as int]@);
        }
        let _ = cache.insert(psbts[i].compute_txid(), psbts[i].clone());
        i += 1;
    }
    assert(all.take(all.len() as int) =~= all);
}

impl GameApp {
    fn local_tentative_action(&self) -> (action: Option<u8>)
        ensures
            action == self@.tentative_action(),
    {
        let player: Txid = match self.player_id() {
            Some(player) => player,
            None => {
                return None;
            },
        };
        let mut i: usize = 0;
        assert(self.events@.skip(0) =~= self.events@);
        while i < self.events.len()
            invariant
                i <= self.events@.len(),
                first_tentative(self.events@, player) == first_tentative(
                    self.events@.skip(i as int),
                    player,
                ),
                self@.tentative_action() == first_tentative(self.events@, player),
            decreases self.events@.len() - i,
        {
            proof {
                assert(self.events@.skip(i as int)[0] == self.events@[i as int]);
                assert(self.events@.skip(i as int).drop_first() =~= self.events@.skip(i + 1));
            }
            if self.events[i].player == player && self.events[i].local_tentative {
                return Some(self.events[i].action);
            }
            i += 1;
        }
        None
    }

    pub fn can_act(&self) -> (able: bool)
        ensures
            able == self@.can_act(),
    {
        self.phase == Phase::Playing && !self.sending && self.pending_action.is_none()
            && self.pending_dirs.len() == 0 && self.local_tentative_action().is_none()
            && self.carrier_available
    }

    pub fn can_mint_pack(&self) -> (able: bool)
        ensures
            able == self@.can_mint_pack(),
    {
        self.move_assets.is_some() && self.funding_ready && !self.sending
            && self.pending_action.is_none() && self.pending_dirs.len() == 0
    }

    fn pending_direction(&self) -> (direction: Option<u8>)
        ensures
            direction == self@.pending_direction(),
    {
        match &self.pending_action {
            Some(PendingAction::Move { direction, .. }) => Some(*direction),
            Some(PendingAction::UnknownMove { direction, .. }) => Some(*direction),
            _ => None,
        }
    }

    fn projected_action(&self) -> (action: Option<u8>)
        ensures
            action == self@.projected_action(),
    {
        match self.pending_direction() {
            Some(direction) => Some(direction),
            None => if self.pending_dirs.len() > 0 {
                Some(self.pending_dirs[0])
            } else {
                self.local_tentative_action()
            },
        }
    }

    /// Queues the first playable one of the given actions.
    pub fn queue_inputs(&mut self, dirs: &[u8])
        requires
            old(self)@.wf(),
        ensures
            final(self)@ == old(self)@.queued(dirs@),
            final(self)@.wf(),
    {
        if !self.can_act() {
            return ;
        }
        let ghost model = self@;
        let mut i: usize = 0;
        assert(dirs@.skip(0) =~= dirs@);
        while i < dirs.len()
            invariant
                i <= dirs@.len(),
                self@ == model,
                model == old(self)@,
                model.wf(),
                model.can_act(),
                first_playable(dirs@, model.move_balances) == first_playable(
                    dirs@.skip(i as int),
                    model.move_balances,
                ),
            decreases dirs@.len() - i,
        {
            let dir: u8 = dirs[i];
            proof {
                assert(dirs@.skip(i as int)[0] == dir);
                assert(dirs@.skip(i as int).drop_first() =~= dirs@.skip(i + 1));
            }
            if dir < 6 && self.move_balances[dir as usize] > 0 {
                self.pending_dirs.push(dir);
                proof {
                    assert(self@.pending_dirs =~= seq![dir]);
                    assert(self@ =~= App { pending_dirs: seq![dir], ..model });
                }
                return ;
            }
            i += 1;
        }
    }

    fn reconcile_next_sequence(&mut self)
        requires
            old(self)@.wf(),
        ensures
            final(self)@ == old(self)@.reconciled(),
            final(self)@.wf(),
    {
        let player: Txid = match self.player_id() {
            Some(player) => player,
            None => {
                return ;
            },
        };
        let chain: Vec<ActionEvent> = actions::player_chain(&self.events, player);
        let count: u32 = if chain.len() as u64 <= u32::MAX as u64 {
            chain.len() as u32
        } else {
            0
        };
        if count > self.next_sequence {
            self.next_sequence = count;
        }
        assert(self@ =~= old(self)@.reconciled());
    }

    fn local_history_ready(&self) -> (ready: bool)
        ensures
            ready == self@.history_ready(),
    {
        let player: Txid = match self.player_id() {
            Some(player) => player,
            None => {
                return false;
            },
        };
        let script: &String = match self.registered_players.get(player) {
            Some(script) => script,
            None => {
                return false;
            },
        };
        if !self.fully_scanned_player_scripts.contains(script.as_str()) {
            return false;
        }
        let ghost unresolved = self.unresolved_player_outputs@;
        let ghost keys = self.unresolved_player_outputs.keys();
        let n: usize = self.unresolved_player_outputs.len();
        let mut i: usize = 0;
        while i < n
            invariant
                i <= n == keys.len(),
                unresolved == self.unresolved_player_outputs@,
                keys == self.unresolved_player_outputs.keys(),
                unresolved == self@.unresolved_player_outputs,
                self@.player_id() == Some(player),
                self@.registered_players.contains_key(player),
                self@.registered_players[player] == script@,
                forall|k: int|
                    0 <= k < keys.len() ==> unresolved.contains_key(#[trigger] keys[k]),
                forall|k: int|
                    0 <= k < i ==> text::lower(unresolved[#[trigger] keys[k]].script)
                        != text::lower(script@),
            decreases n - i,
        {
            let record: &VtxoRecord = self.unresolved_player_outputs.value_at(i);
            if text::same_ignoring_case(record.script.as_str(), script.as_str()) {
                assert(text::lower(unresolved[keys[i as int]].script) == text::lower(script@));
                return false;
            }
            i += 1;
        }
        proof {
            assert forall|o: OutPoint| unresolved.contains_key(o) implies text::lower(
                (#[trigger] unresolved[o]).script,
            ) != text::lower(script@) by {
                assert(keys.contains(o));
                let k = keys.index_of(o);
                assert(keys[k] == o);
            }
        }
        true
    }

    fn local_action_predecessor(&self, sequence: u32) -> (outpoint: Option<OutPoint>)
        ensures
            outpoint == self@.predecessor(sequence),
    {
        let player: Txid = match self.player_id() {
            Some(player) => player,
            None => {
                return None;
            },
        };
        if sequence == 0 {
            return Some(
                OutPoint { txid: player, vout: gamelog::PLAYER_ASSET_OUTPUT_INDEX as u32 },
            );
        }
        let chain: Vec<ActionEvent> = actions::player_chain(&self.events, player);
        if sequence as usize <= chain.len() {
            Some(OutPoint { txid: chain[sequence as usize - 1].txid, vout: 0 })
        } else {
            None
        }
    }

    fn record_move_event(
        &mut self,
        direction: u8,
        sequence: u32,
        txid: Txid,
        predecessor: OutPoint,
    )
        requires
            old(self)@.wf(),
        ensures
            final(self)@ == old(self)@.move_recorded(direction, sequence, txid, predecessor),
            final(self)@.wf(),
    {
        let player: Txid = match self.player_id() {
            Some(player) => player,
            None => {
                return ;
            },
        };
        if self.seen_move_txs.insert(txid) {
            self.events.push(
                ActionEvent {
                    txid,
                    player,
                    sequence,
                    action: direction,
                    predecessor,
                    created_at: None,
                    local_tentative: true,
                },
            );
        } else {
            assert(self@.seen_move_txs =~= old(self)@.seen_move_txs);
        }
        assert(self@ =~= old(self)@.move_recorded(direction, sequence, txid, predecessor));
    }

    fn pass_sequence(&mut self, sequence: u32)
        requires
            old(self)@.wf(),
        ensures
            final(self)@ == old(self)@.sequence_passed(sequence),
            final(self)@.wf(),
    {
        let next: u32 = sequence.saturating_add(1);
        if next > self.next_sequence {
            self.next_sequence = next;
        }
        assert(self@ =~= old(self)@.sequence_passed(sequence));
    }

    fn complete_move(&mut self, direction: u8, sequence: u32, txid: Txid, predecessor: OutPoint)
        requires
            old(self)@.wf(),
            direction < 6,
        ensures
            final(self)@ == old(self)@.move_completed(direction, sequence, txid, predecessor),
            final(self)@.wf(),
    {
        self.record_move_event(direction, sequence, txid, predecessor);
        self.pass_sequence(sequence);
        let ghost noted = self@;
        let left: u64 = self.move_balances[direction as usize];
        self.move_balances[direction as usize] = if left > 0 {
            left - 1
        } else {
            0
        };
        self.carrier_available = false;
        proof {
            assert(self@.move_balances =~= noted.move_balances.update(
                direction as int,
                if left > 0 {
                    (left - 1) as u64
                } else {
                    0
                },
            ));
            assert(self@ =~= App {
                move_balances: self@.move_balances,
                carrier_available: false,
                ..noted
            });
        }
        let mut line: String = line3("burned ", UPPER_NAMES[direction as usize], " #");
        let number: String = text::decimal_string(sequence.saturating_add(1) as u64);
        line.append(number.as_str());
        line.append(" in ");
        let shown: String = short_txid(&txid);
        line.append(shown.as_str());
        self.log_line(line);
    }

    fn cache_pending_transactions(&mut self, action: &PendingAction)
        requires
            old(self)@.wf(),
        ensures
            final(self)@ == old(self)@.tx_cached(action@.tx),
            final(self)@.wf(),
    {
        let ark: &Psbt = pending::pending_action_psbt(action);
        let _ = self.tx_cache.insert(ark.compute_txid(), ark.clone());
        store_all(&mut self.tx_cache, pending::pending_action_checkpoints(action));
        assert(self@ =~= old(self)@.tx_cached(action@.tx));
    }

    fn finish_pending(&mut self, action: &PendingAction, deduct_balance: bool)
        requires
            old(self)@.wf(),
            action@.purpose matches Purpose::Move(direction, _) ==> direction < 6,
        ensures
            final(self)@ == old(self)@.finished(action@, deduct_balance),
            final(self)@.wf(),
    {
        self.cache_pending_transactions(action);
        let txid: Txid = pending::pending_action_txid(action);
        let shown: String = short_txid(&txid);
        let unknown: bool = match action {
            PendingAction::UnknownIssuance { .. } => true,
            PendingAction::UnknownMove { .. } => true,
            PendingAction::UnknownSweep { .. } => true,
            _ => false,
        };
        let ending: &str = if unknown {
            " appeared in indexer"
        } else {
            " finalized"
        };
        match action {
            PendingAction::Issuance { asset_ids, .. } => {
                self.finish_issuance(*asset_ids, txid, ending);
            },
            PendingAction::UnknownIssuance { asset_ids, .. } => {
                self.finish_issuance(*asset_ids, txid, ending);
            },
            PendingAction::Move { direction, sequence, .. } => {
                self.finish_move(*direction, *sequence, txid, deduct_balance, ending);
            },
            PendingAction::UnknownMove { direction, sequence, .. } => {
                self.finish_move(*direction, *sequence, txid, deduct_balance, ending);
            },
            PendingAction::Sweep { .. } => {
                self.log_line(line3("wallet sweep ", shown.as_str(), ending));
            },
            PendingAction::UnknownSweep { .. } => {
                self.log_line(line3("wallet sweep ", shown.as_str(), ending));
            },
        }
        self.settle();
    }

    fn settle(&mut self)
        requires
            old(self)@.wf(),
        ensures
            final(self)@ == old(self)@.settled(),
            final(self)@.wf(),
    {
        self.pending_action = None;
        self.pending_needs_recovery = false;
        assert(self@ =~= old(self)@.settled());
    }

    fn finish_issuance(&mut self, asset_ids: [AssetId; 6], txid: Txid, ending: &str)
        requires
            old(self)@.wf(),
        ensures
            final(self)@ == old(self)@.issuance_done(asset_ids@, txid, ending@),
            final(self)@.wf(),
    {
        let ghost cached = self@;
        self.move_assets = Some(asset_ids);
        let _ = self.registered_players.insert(txid, self.player_script.clone());
        assert(self@ =~= App {
            move_assets: Some(asset_ids@),
            registered_players: cached.registered_players.insert(txid, cached.player_script),
            ..cached
        });
        let shown: String = short_txid(&txid);
        self.log_line(line3("issuance ", shown.as_str(), ending));
    }

    fn finish_move(
        &mut self,
        direction: u8,
        sequence: u32,
        txid: Txid,
        deduct_balance: bool,
        ending: &str,
    )
        requires
            old(self)@.wf(),
            direction < 6,
        ensures
            final(self)@ == old(self)@.move_done(
                direction,
                sequence,
                txid,
                deduct_balance,
                ending@,
            ),
            final(self)@.wf(),
    {
        match self.local_action_predecessor(sequence) {
            Some(predecessor) => if deduct_balance {
                self.complete_move(direction, sequence, txid, predecessor);
            } else {
                self.record_move_event(direction, sequence, txid, predecessor);
                self.pass_sequence(sequence);
                let shown: String = short_txid(&txid);
                self.log_line(line3("move ", shown.as_str(), ending));
            },
            None => {},
        }
    }
}

/// What became of a submitted transaction.
pub enum RunTxStatus {
    Finalized(Txid),
    Pending(PendingFinalize),
    SubmissionUnknown(UnknownSubmission),
}

/// What a `RunTxStatus` says.
#[verifier::ext_equal]
pub enum Submitted {
    Finalized(Txid),
    Pending(Prepared),
    Unknown(Prepared),
}

impl View for RunTxStatus {
    type V = Submitted;

    open spec fn view(&self) -> Submitted {
        match self {
            RunTxStatus::Finalized(txid) => Submitted::Finalized(*txid),
            RunTxStatus::Pending(pending) => Submitted::Pending(pending@),
            RunTxStatus::SubmissionUnknown(submission) => Submitted::Unknown(submission@),
        }
    }
}

/// What to do to complete the pending action.
pub enum ResumeAction {
    /// There is nothing to do.
    Nothing,
    /// Submit a transaction that was never submitted.
    Submit(UnknownSubmission),
    /// Find out what became of a transaction, and submit it again if the operator does not have it.
    Retry(UnknownSubmission),
    /// Finalize a transaction that the operator has cosigned.
    Finalize(PendingFinalize),
}

/// What a `ResumeAction` says.
#[verifier::ext_equal]
pub enum Resume {
    Nothing,
    Submit(Prepared),
    Retry(Prepared),
    Finalize(Prepared),
}

impl View for ResumeAction {
    type V = Resume;

    open spec fn view(&self) -> Resume {
        match self {
            ResumeAction::Nothing => Resume::Nothing,
            ResumeAction::Submit(submission) => Resume::Submit(submission@),
            ResumeAction::Retry(submission) => Resume::Retry(submission@),
            ResumeAction::Finalize(pending) => Resume::Finalize(pending@),
        }
    }
}

impl App {
    /// Whether the pending action was prepared in this run and never submitted.
    pub open spec fn has_fresh_action(self) -> bool {
        pending::is_fresh(self.pending_action, self.pending_needs_recovery)
    }

    /// Whether the wallet shows the effect of the pending action. A fresh one has none yet.
    pub open spec fn effect_seen(self) -> bool {
        self.pending_action is Some && !self.has_fresh_action() && pending::effect_observed(
            self.pending_action.unwrap(),
            self.wallet_records,
        )
    }

    /// The state when the pending action is taken up: finished where its effect is seen, else
    /// being sent.
    pub open spec fn resumed(self) -> App {
        match self.pending_action {
            None => self,
            Some(action) => if self.effect_seen() {
                self.finished(action, false)
            } else {
                App { sending: true, ..self }
            },
        }
    }

    /// What is to be done for the pending action.
    pub open spec fn resume_action(self) -> Resume {
        match self.pending_action {
            None => Resume::Nothing,
            Some(action) => if self.effect_seen() {
                Resume::Nothing
            } else if !action.unknown {
                Resume::Finalize(action.tx)
            } else if self.pending_needs_recovery {
                Resume::Retry(action.tx)
            } else {
                Resume::Submit(action.tx)
            },
        }
    }

    /// After the attempt to finalize the pending action.
    pub open spec fn finalization_done(self, error: Option<Seq<char>>) -> App {
        let idle = App { sending: false, ..self };
        match (self.pending_action, error) {
            (Some(action), None) => idle.finished(action, true),
            (_, Some(error)) => idle.reported("pending finalization"@, error),
            (None, None) => idle,
        }
    }

    /// After the attempt to submit the pending action.
    pub open spec fn submission_done(self, result: Result<Submitted, Seq<char>>) -> App {
        let idle = App { sending: false, ..self };
        match (self.pending_action, result) {
            (_, Err(error)) => App { pending_needs_recovery: true, ..idle }.reported(
                "submission recovery"@,
                error,
            ),
            (None, Ok(_)) => idle,
            (Some(action), Ok(status)) => if !action.unknown {
                idle
            } else {
                match status {
                    Submitted::Finalized(_) => idle.finished(action, true),
                    Submitted::Pending(tx) => App {
                        pending_action: Some(
                            Pending { unknown: false, tx, purpose: action.purpose },
                        ),
                        ..idle
                    },
                    Submitted::Unknown(tx) => App {
                        pending_action: Some(
                            Pending { unknown: true, tx, purpose: action.purpose },
                        ),
                        pending_needs_recovery: true,
                        ..idle
                    },
                }
            },
        }
    }
}

pub open spec fn submitted_view(result: Result<RunTxStatus, String>) -> Result<
    Submitted,
    Seq<char>,
> {
    match result {
        Ok(status) => Ok(status@),
        Err(error) => Err(error@),
    }
}

pub open spec fn error_view<T>(result: Result<T, String>) -> Option<Seq<char>> {
    match result {
        Ok(_) => None,
        Err(error) => Some(error@),
    }
}

impl GameApp {
    pub fn has_fresh_prepared_action(&self) -> (fresh: bool)
        ensures
            fresh == self@.has_fresh_action(),
    {
        pending::is_fresh_prepared_action(self.pending_action.as_ref(), self.pending_needs_recovery)
    }

    fn set_sending(&mut self, sending: bool)
        requires
            old(self)@.wf(),
        ensures
            final(self)@ == (App { sending, ..old(self)@ }),
            final(self)@.wf(),
    {
        self.sending = sending;
        assert(self@ =~= App { sending, ..old(self)@ });
    }

    fn set_needs_recovery(&mut self)
        requires
            old(self)@.wf(),
        ensures
            final(self)@ == (App { pending_needs_recovery: true, ..old(self)@ }),
            final(self)@.wf(),
    {
        self.pending_needs_recovery = true;
        assert(self@ =~= App { pending_needs_recovery: true, ..old(self)@ });
    }

    fn set_pending(&mut self, action: PendingAction)
        requires
            old(self)@.wf(),
            action@.purpose matches Purpose::Move(direction, _) ==> direction < 6,
        ensures
            final(self)@ == (App { pending_action: Some(action@), ..old(self)@ }),
            final(self)@.wf(),
    {
        self.pending_action = Some(action);
        assert(self@ =~= App { pending_action: Some(action@), ..old(self)@ });
    }

    fn copy_pending(&self) -> (action: Option<PendingAction>)
        ensures
            pending::opt_pending(action) == self@.pending_action,
    {
        match &self.pending_action {
            Some(action) => Some(action.clone()),
            None => None,
        }
    }

    /// Takes up the pending action, and tells what is to be done for it.
    pub fn resume_pending(&mut self) -> (action: ResumeAction)
        requires
            old(self)@.wf(),
        ensures
            final(self)@ == old(self)@.resumed(),
            final(self)@.wf(),
            action@ == old(self)@.resume_action(),
    {
        let action: PendingAction = match self.copy_pending() {
            Some(action) => action,
            None => {
                return ResumeAction::Nothing;
            },
        };
        let fresh: bool = self.has_fresh_prepared_action();
        let observed: bool = !fresh && pending::pending_wallet_effect_observed(
            &action,
            &self.wallet_records,
        );
        if observed {
            self.finish_pending(&action, false);
            return ResumeAction::Nothing;
        }
        let recovery: bool = self.pending_needs_recovery;
        self.set_sending(true);
        match action {
            PendingAction::UnknownIssuance { submission, .. } => if recovery {
                ResumeAction::Retry(submission)
            } else {
                ResumeAction::Submit(submission)
            },
            PendingAction::UnknownMove { submission, .. } => if recovery {
                ResumeAction::Retry(submission)
            } else {
                ResumeAction::Submit(submission)
            },
            PendingAction::UnknownSweep { submission } => if recovery {
                ResumeAction::Retry(submission)
            } else {
                ResumeAction::Submit(submission)
            },
            PendingAction::Issuance { pending, .. } => ResumeAction::Finalize(pending),
            PendingAction::Move { pending, .. } => ResumeAction::Finalize(pending),
            PendingAction::Sweep { pending } => ResumeAction::Finalize(pending),
        }
    }

    /// Takes in what came of finalizing the pending action.
    pub fn finalization_done(&mut self, result: Result<(), String>)
        requires
            old(self)@.wf(),
        ensures
            final(self)@ == old(self)@.finalization_done(error_view(result)),
            final(self)@.wf(),
    {
        self.set_sending(false);
        match result {
            Ok(_) => match self.copy_pending() {
                Some(action) => {
                    self.finish_pending(&action, true);
                },
                None => {},
            },
            Err(error) => {
                self.report_error("pending finalization", error.as_str());
            },
        }
    }

    /// Takes in what came of submitting the pending action.
    #[verifier::spinoff_prover]
    pub fn submission_done(&mut self, result: Result<RunTxStatus, String>)
        requires
            old(self)@.wf(),
        ensures
            final(self)@ == old(self)@.submission_done(submitted_view(result)),
            final(self)@.wf(),
    {
        self.set_sending(false);
        let status: RunTxStatus = match result {
            Ok(status) => status,
            Err(error) => {
                self.set_needs_recovery();
                self.report_error("submission recovery", error.as_str());
                return ;
            },
        };
        let action: PendingAction = match self.copy_pending() {
            Some(action) => action,
            None => {
                return ;
            },
        };
        match &action {
            PendingAction::UnknownIssuance { .. } => {},
            PendingAction::UnknownMove { .. } => {},
            PendingAction::UnknownSweep { .. } => {},
            _ => {
                return ;
            },
        }
        match status {
            RunTxStatus::Finalized(_) => {
                self.finish_pending(&action, true);
            },
            RunTxStatus::Pending(pending) => {
                let next: PendingAction = match action {
                    PendingAction::UnknownIssuance { asset_ids, .. } => PendingAction::Issuance {
                        pending,
                        asset_ids,
                    },
                    PendingAction::UnknownMove { direction, sequence, .. } => PendingAction::Move {
                        pending,
                        direction,
                        sequence,
                    },
                    _ => PendingAction::Sweep { pending },
                };
                self.set_pending(next);
            },
            RunTxStatus::SubmissionUnknown(submission) => {
                let next: PendingAction = match action {
                    PendingAction::UnknownIssuance { asset_ids, .. } =>
                        PendingAction::UnknownIssuance { submission, asset_ids },
                    PendingAction::UnknownMove { direction, sequence, .. } =>
                        PendingAction::UnknownMove { submission, direction, sequence },
                    _ => PendingAction::UnknownSweep { submission },
                };
                self.set_needs_recovery();
                self.set_pending(next);
            },
        }
    }
}

/// The label of an issuance in the log of errors.
pub open spec fn issue_label(resets_player: bool) -> Seq<char> {
    if resets_player {
        "action pack mint"@
    } else {
        "issuance"@
    }
}

impl App {
    /// Why an issuance cannot be paid for.
    pub open spec fn funding_error(self) -> Seq<char> {
        "need BTC-only inputs totaling exactly "@ + text::decimal_text(self.required() as nat)
            + " sats or leaving at least "@ + text::decimal_text(self.params.vtxo_min_sats as nat)
            + " sats of change"@
    }

    /// The state when an issuance is begun.
    pub open spec fn issuance_begun(
        self,
        spendable: Seq<Record>,
        resets_player: bool,
        now_ms: u64,
    ) -> App {
        if self.funding(spendable, now_ms) is Some {
            App { phase: Phase::Issuing, sending: true, ..self }
        } else {
            self.send_failed(issue_label(resets_player), self.funding_error())
        }
    }

    /// The state when an issuance is prepared, or could not be: the new assets are the player's,
    /// the sequence starts again, and the transaction waits to be submitted.
    pub open spec fn issuance_prepared(
        self,
        result: Result<(Prepared, Seq<AssetId>), Seq<char>>,
        resets_player: bool,
    ) -> App {
        let idle = App { sending: false, ..self };
        match result {
            Err(error) => idle.send_failed(issue_label(resets_player), error),
            Ok((tx, ids)) => App {
                pending_action: Some(
                    Pending { unknown: true, tx, purpose: Purpose::Issuance(ids) },
                ),
                pending_needs_recovery: false,
                ..App {
                    move_assets: Some(ids),
                    move_pack_created_at: Some(i64::MAX),
                    registered_players: self.registered_players.insert(
                        tx.txid,
                        self.player_script,
                    ),
                    move_balances: game::ACTION_SUPPLIES@,
                    carrier_available: false,
                    issuance_visible: false,
                    next_sequence: 0,
                    ..idle
                }.logged(
                    (if resets_player {
                        "new action pack"@
                    } else {
                        "issuance"@
                    }) + " "@ + short(tx.txid) + " prepared; persisting before submission"@,
                )
            },
        }
    }
}

pub open spec fn built_view(result: Result<(UnknownSubmission, [AssetId; 6]), String>) -> Result<
    (Prepared, Seq<AssetId>),
    Seq<char>,
> {
    match result {
        Ok(built) => Ok((built.0@, built.1@)),
        Err(error) => Err(error@),
    }
}

pub open spec fn prepared_view(result: Result<UnknownSubmission, String>) -> Result<
    Prepared,
    Seq<char>,
> {
    match result {
        Ok(submission) => Ok(submission@),
        Err(error) => Err(error@),
    }
}

impl GameApp {
    /// Begins an issuance: gives the inputs to build it from, or reports that there are none.
    pub fn begin_issuance(
        &mut self,
        spendable: &[VtxoRecord],
        resets_player: bool,
        now_ms: u64,
    ) -> (inputs: Option<Vec<VtxoRecord>>)
        requires
            old(self)@.wf(),
        ensures
            final(self)@ == old(self)@.issuance_begun(
                arkade::records_view(spendable@),
                resets_player,
                now_ms,
            ),
            final(self)@.wf(),
            match inputs {
                Some(inputs) => old(self)@.funding(arkade::records_view(spendable@), now_ms)
                    == Some(arkade::records_view(inputs@)),
                None => old(self)@.funding(arkade::records_view(spendable@), now_ms) is None,
            },
    {
        match self.registration_inputs(spendable, now_ms) {
            Some(inputs) => {
                self.phase = Phase::Issuing;
                self.sending = true;
                assert(self@ =~= App { phase: Phase::Issuing, sending: true, ..old(self)@ });
                Some(inputs)
            },
            None => {
                let required: String = text::decimal_string(self.required_funding());
                let least: String = text::decimal_string(self.params.vtxo_min_sats);
                let mut error: String = line3(
                    "need BTC-only inputs totaling exactly ",
                    required.as_str(),
                    " sats or leaving at least ",
                );
                error.append(least.as_str());
                error.append(" sats of change");
                let label: &str = if resets_player {
                    "action pack mint"
                } else {
                    "issuance"
                };
                self.handle_send_error(label, error.as_str());
                None
            },
        }
    }

    /// Takes in the issuance that was built and signed, or why it could not be.
    pub fn issuance_prepared(
        &mut self,
        result: Result<(UnknownSubmission, [AssetId; 6]), String>,
        resets_player: bool,
    )
        requires
            old(self)@.wf(),
        ensures
            final(self)@ == old(self)@.issuance_prepared(built_view(result), resets_player),
            final(self)@.wf(),
    {
        self.set_sending(false);
        let ghost idle = self@;
        match result {
            Err(error) => {
                let label: &str = if resets_player {
                    "action pack mint"
                } else {
                    "issuance"
                };
                self.handle_send_error(label, error.as_str());
            },
            Ok((submission, asset_ids)) => {
                let txid: Txid = submission.txid;
                self.move_assets = Some(asset_ids);
                self.move_pack_created_at = Some(i64::MAX);
                let _ = self.registered_players.insert(txid, self.player_script.clone());
                self.move_balances = game::ACTION_SUPPLIES;
                self.carrier_available = false;
                self.issuance_visible = false;
                self.next_sequence = 0;
                assert(self@ =~= App {
                    move_assets: Some(asset_ids@),
                    move_pack_created_at: Some(i64::MAX),
                    registered_players: idle.registered_players.insert(txid, idle.player_script),
                    move_balances: game::ACTION_SUPPLIES@,
                    carrier_available: false,
                    issuance_visible: false,
                    next_sequence: 0,
                    ..idle
                });
                let shown: String = short_txid(&txid);
                let mut line: String = if resets_player {
                    "new action pack".to_owned()
                } else {
                    "issuance".to_owned()
                };
                line.append(" ");
                line.append(shown.as_str());
                line.append(" prepared; persisting before submission");
                self.log_line(line);
                let ghost logged = self@;
                self.pending_action = Some(
                    PendingAction::UnknownIssuance { submission, asset_ids },
                );
                self.pending_needs_recovery = false;
                assert(self@ =~= App {
                    pending_action: Some(
                        Pending {
                            unknown: true,
                            tx: submission@,
                            purpose: Purpose::Issuance(asset_ids@),
                        },
                    ),
                    pending_needs_recovery: false,
                    ..logged
                });
            },
        }
    }
}

} // verus!
