//! Keeping the pending action across restarts.

use super::{App, GameApp, Phase, MAX_PENDING_JOURNAL_BYTES, PENDING_JOURNAL_VERSION};
use crate::chain::{AssetId, Txid};
use crate::game;
use crate::gamelog;
use crate::pending;
use crate::pending::{JournalError, Pending, PendingAction, PendingJournal, Purpose};
use crate::text;
use vstd::prelude::*;

verus! {

/// Whether a journal is small enough to be read.
pub fn check_journal_size(bytes: usize) -> (result: Result<(), JournalError>)
    ensures
        result == if bytes > MAX_PENDING_JOURNAL_BYTES {
            Err::<(), JournalError>(JournalError::TooLarge)
        } else {
            Ok::<(), JournalError>(())
        },
{
    if bytes > MAX_PENDING_JOURNAL_BYTES {
        Err(JournalError::TooLarge)
    } else {
        Ok(())
    }
}

impl App {
    /// The operator's signer key as text.
    pub open spec fn signer_text(self) -> Seq<char> {
        text::hex_text(self.params.signer_pk)
    }

    /// Whether a pending issuance registers this wallet.
    pub open spec fn registers_wallet(self, action: Pending) -> bool {
        action.purpose is Issuance ==> gamelog::registered_script(
            action.tx.signed_ark.tx.output,
            self.game_script,
            self.params.dust_sats,
        ) == Some(self.player_script)
    }

    /// The state with a pending action taken up from a journal, or why the journal is refused: it
    /// has to be of this version, operator, wallet and signer, and its transaction has to be valid.
    pub open spec fn journal_restored(self, journal: PendingJournal) -> Result<App, JournalError> {
        if journal.version != PENDING_JOURNAL_VERSION {
            Err(JournalError::UnsupportedVersion(journal.version))
        } else if journal.server@ != self.server {
            Err(JournalError::DifferentServer)
        } else if journal.address@ != self.player_address {
            Err(JournalError::DifferentWallet)
        } else if journal.signer@ != self.signer_text() {
            Err(JournalError::DifferentSigner)
        } else {
            match pending::restored(journal.action@) {
                Err(error) => Err(error),
                Ok(action) => if !self.registers_wallet(action) {
                    Err(JournalError::NotARegistration)
                } else {
                    let txid = action.tx.txid;
                    let known = match action.purpose {
                        Purpose::Issuance(ids) => App {
                            phase: Phase::Issuing,
                            move_assets: Some(ids),
                            move_pack_created_at: Some(i64::MAX),
                            move_balances: game::ACTION_SUPPLIES@,
                            next_sequence: 0,
                            registered_players: self.registered_players.insert(
                                txid,
                                self.player_script,
                            ),
                            ..self
                        },
                        _ => self,
                    };
                    Ok(
                        App {
                            pending_action: Some(action),
                            pending_needs_recovery: true,
                            ..known
                        }.logged(
                            "restored pending transaction "@ + super::short(txid)
                                + " from browser journal"@,
                        ),
                    )
                },
            }
        }
    }
}

impl GameApp {
    /// The journal of the pending action, where there is one. Any run of the same wallet at the same
    /// operator takes up from it exactly the action it was made from, if that is consistent and its
    /// transactions are not too large to be read.
    pub fn export_pending_journal(&self) -> (journal: Option<PendingJournal>)
        ensures
            match journal {
                Some(journal) => self@.pending_action is Some && {
                    let action = self@.pending_action.unwrap();
                    &&& journal.version == PENDING_JOURNAL_VERSION
                    &&& journal.server@ == self@.server
                    &&& journal.address@ == self@.player_address
                    &&& journal.signer@ == self@.signer_text()
                    &&& journal.action@ == pending::journal_of(action)
                    &&& pending::consistent(action) && pending::readable(action.tx)
                        ==> pending::restored(journal.action@) == Ok::<Pending, JournalError>(
                        action,
                    )
                    &&& pending::consistent(action) && pending::readable(action.tx)
                        ==> forall|other: App|
                        super::laws::same_wallet(self@, other) && other.registers_wallet(action)
                            ==> (#[trigger] other.journal_restored(journal) matches Ok(restored)
                            && restored.pending_action == Some(action))
                },
                None => self@.pending_action is None,
            },
    {
        match &self.pending_action {
            None => None,
            Some(action) => {
                let journal: PendingJournal = PendingJournal {
                    version: PENDING_JOURNAL_VERSION,
                    server: self.server.clone(),
                    address: self.player_address.clone(),
                    signer: text::hex_string(self.params.signer_pk.as_slice()),
                    action: pending::pending_action_to_journal(action),
                };
                proof {
                    if pending::consistent(action@) && pending::readable(action@.tx) {
                        assert forall|other: App|
                            super::laws::same_wallet(self@, other) && other.registers_wallet(
                                action@,
                            ) implies (#[trigger] other.journal_restored(journal) matches Ok(
                            restored,
                        ) && restored.pending_action == Some(action@)) by {
                            super::laws::law_journal_keeps_the_pending_action(
                                self@,
                                journal,
                                other,
                                action@,
                            );
                        }
                    }
                }
                Some(journal)
            },
        }
    }

    /// Takes up the pending action of a journal. A refused journal changes nothing.
    pub fn restore_pending_journal(&mut self, journal: PendingJournal) -> (result: Result<
        (),
        JournalError,
    >)
        requires
            old(self)@.wf(),
        ensures
            match result {
                Ok(_) => old(self)@.journal_restored(journal) == Ok::<App, JournalError>(
                    final(self)@,
                ),
                Err(error) => old(self)@.journal_restored(journal) == Err::<App, JournalError>(
                    error,
                ) && final(self)@ == old(self)@,
            },
            final(self)@.wf(),
    {
        if journal.version != PENDING_JOURNAL_VERSION {
            return Err(JournalError::UnsupportedVersion(journal.version));
        }
        if journal.server != self.server {
            return Err(JournalError::DifferentServer);
        }
        if journal.address != self.player_address {
            return Err(JournalError::DifferentWallet);
        }
        if journal.signer != text::hex_string(self.params.signer_pk.as_slice()) {
            return Err(JournalError::DifferentSigner);
        }
        let action: PendingAction = match pending::pending_action_from_journal(journal.action) {
            Ok(action) => action,
            Err(error) => {
                return Err(error);
            },
        };
        let txid: Txid = pending::pending_action_txid(&action);
        let issued: Option<[AssetId; 6]> = match &action {
            PendingAction::Issuance { asset_ids, .. } => Some(*asset_ids),
            PendingAction::UnknownIssuance { asset_ids, .. } => Some(*asset_ids),
            _ => None,
        };
        if let Some(asset_ids) = issued {
            let registered: bool = match gamelog::registration_player_script(
                pending::pending_action_psbt(&action).unsigned_tx(),
                self.game_script.as_str(),
                self.params.dust_sats,
            ) {
                Some(script) => script == self.player_script,
                None => false,
            };
            if !registered {
                return Err(JournalError::NotARegistration);
            }
            self.adopt_issuance(asset_ids, txid);
        }
        let ghost known = self@;
        proof {
            pending::law_restored_actions_are_consistent(journal.action@);
        }
        self.pending_action = Some(action);
        self.pending_needs_recovery = true;
        assert(self@ =~= App {
            pending_action: Some(action@),
            pending_needs_recovery: true,
            ..known
        });
        let shown: String = super::short_txid(&txid);
        self.log_line(
            super::line3(
                "restored pending transaction ",
                shown.as_str(),
                " from browser journal",
            ),
        );
        Ok(())
    }

    fn adopt_issuance(&mut self, asset_ids: [AssetId; 6], txid: Txid)
        requires
            old(self)@.wf(),
        ensures
            final(self)@ == (App {
                phase: Phase::Issuing,
                move_assets: Some(asset_ids@),
                move_pack_created_at: Some(i64::MAX),
                move_balances: game::ACTION_SUPPLIES@,
                next_sequence: 0,
                registered_players: old(self)@.registered_players.insert(
                    txid,
                    old(self)@.player_script,
                ),
                ..old(self)@
            }),
            final(self)@.wf(),
    {
        self.phase = Phase::Issuing;
        self.move_assets = Some(asset_ids);
        self.move_pack_created_at = Some(i64::MAX);
        self.move_balances = game::ACTION_SUPPLIES;
        self.next_sequence = 0;
        let _ = self.registered_players.insert(txid, self.player_script.clone());
        assert(self@ =~= App {
            phase: Phase::Issuing,
            move_assets: Some(asset_ids@),
            move_pack_created_at: Some(i64::MAX),
            move_balances: game::ACTION_SUPPLIES@,
            next_sequence: 0,
            registered_players: old(self)@.registered_players.insert(
                txid,
                old(self)@.player_script,
            ),
            ..old(self)@
        });
    }
}

} // verus!
