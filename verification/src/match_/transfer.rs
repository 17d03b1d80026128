//! Sweeping the wallet and sending the next action.

use super::{App, GameApp, UPPER_NAMES};
use crate::address;
use crate::arkade;
use crate::arkade::{Network, Record, VtxoRecord};
use crate::chain::AssetId;
use crate::pending::{Pending, PendingAction, Prepared, Purpose, UnknownSubmission};
use crate::seqs;
use crate::text;
use vstd::prelude::*;

verus! {

/// What to build a sweep from.
#[derive(Debug)]
pub struct SweepPlan {
    pub inputs: Vec<VtxoRecord>,
    /// The Arkade address that receives everything.
    pub recipient: String,
}

/// What to build the next action from.
#[derive(Debug)]
pub struct MovePlan {
    pub carrier: VtxoRecord,
    pub asset_id: AssetId,
    pub sequence: u32,
    pub direction: u8,
}

/// What a `MovePlan` says.
#[verifier::ext_equal]
pub struct Step {
    pub carrier: Record,
    pub asset_id: AssetId,
    pub sequence: u32,
    pub direction: u8,
}

impl View for MovePlan {
    type V = Step;

    open spec fn view(&self) -> Step {
        Step {
            carrier: self.carrier@,
            asset_id: self.asset_id,
            sequence: self.sequence,
            direction: self.direction,
        }
    }
}

impl App {
    /// How addresses of the network start.
    pub open spec fn address_prefix(self) -> Seq<char> {
        if self.params.network == Network::Bitcoin {
            "ark1"@
        } else {
            "tark1"@
        }
    }

    /// The outputs that a sweep takes.
    pub open spec fn sweepable(self, spendable: Seq<Record>, now_ms: u64) -> Seq<Record> {
        spendable.filter(
            |r: Record| super::safe_input(r, now_ms) && !self.excludes(r.outpoint),
        )
    }

    /// The outputs that a sweep to an address takes, or why it is refused: the address has to be
    /// one of the same operator and network other than the wallet's own, and there have to be one
    /// to twenty outputs.
    pub open spec fn sweep_inputs(
        self,
        spendable: Seq<Record>,
        destination: Seq<char>,
        now_ms: u64,
    ) -> Result<Seq<Record>, Seq<char>> {
        let target = text::trimmed(destination);
        let selected = self.sweepable(spendable, now_ms);
        if !self.address_prefix().is_prefix_of(text::lower(target)) {
            Err(
                "destination must be a "@ + self.address_prefix() + " address for "@
                    + self.params.network_name,
            )
        } else {
            match address::ark_address(target) {
                Err(error) => Err("invalid destination Ark address: "@ + error),
                Ok((server, canonical)) => if server != self.params.signer_pk {
                    Err("destination belongs to a different Arkade operator"@)
                } else if canonical == self.player_address {
                    Err(
                        "destination must differ from this wallet; sweeping to self would merge the game carrier"@,
                    )
                } else if selected.len() == 0 {
                    Err("no safely spendable VTXOs to sweep"@)
                } else if selected.len() > 20 {
                    Err(
                        "wallet has "@ + text::decimal_text(selected.len())
                            + " spendable VTXOs; sweep at most 20 after consolidating"@,
                    )
                } else {
                    Ok(selected)
                },
            }
        }
    }

    /// The state when a sweep is begun.
    pub open spec fn sweep_begun(
        self,
        spendable: Seq<Record>,
        destination: Seq<char>,
        now_ms: u64,
    ) -> App {
        match self.sweep_inputs(spendable, destination, now_ms) {
            Err(error) => self.send_failed("wallet sweep"@, error),
            Ok(selected) => App {
                sending: true,
                ..self.logged(
                    "sweeping "@ + text::decimal_text(super::total_sats(selected))
                        + " sats and all carried assets to "@ + text::trimmed(destination),
                )
            },
        }
    }

    /// With a prepared transaction that waits to be submitted.
    pub open spec fn prepared(self, tx: Prepared, purpose: Purpose) -> App {
        App {
            pending_action: Some(Pending { unknown: true, tx, purpose }),
            pending_needs_recovery: false,
            ..self
        }
    }

    /// The state when a sweep is prepared, or could not be.
    pub open spec fn sweep_prepared(self, result: Result<Prepared, Seq<char>>) -> App {
        let idle = App { sending: false, ..self };
        match result {
            Err(error) => idle.send_failed("wallet sweep"@, error),
            Ok(tx) => idle.logged(
                "wallet sweep "@ + super::short(tx.txid)
                    + " prepared; persisting before submission"@,
            ).prepared(tx, Purpose::Sweep),
        }
    }

    /// Whether a record can carry an action that burns a unit of an asset.
    pub open spec fn carries(self, record: Record, asset: Seq<char>, now_ms: u64) -> bool {
        super::safe_input(record, now_ms) && record.amount_sats == self.params.dust_sats
            && !self.excludes(record.outpoint) && super::holds_unit(record, asset)
    }

    /// The last record that can carry an action.
    pub open spec fn carrier_for(
        self,
        spendable: Seq<Record>,
        asset: Seq<char>,
        now_ms: u64,
    ) -> Option<Record>
        decreases spendable.len(),
    {
        if spendable.len() == 0 {
            None
        } else if self.carries(spendable.last(), asset, now_ms) {
            Some(spendable.last())
        } else {
            self.carrier_for(spendable.drop_last(), asset, now_ms)
        }
    }

    /// The next action, where one is queued, a unit of it is left, and a carrier is there.
    pub open spec fn next_step(self, spendable: Seq<Record>, now_ms: u64) -> Option<Step> {
        if self.pending_dirs.len() == 0 || self.move_balances[self.pending_dirs[0] as int] == 0 {
            None
        } else {
            let direction = self.pending_dirs[0];
            let asset_id = self.move_assets.unwrap()[direction as int];
            match self.carrier_for(spendable, asset_id.text(), now_ms) {
                Some(carrier) => Some(
                    Step { carrier, asset_id, sequence: self.next_sequence, direction },
                ),
                None => None,
            }
        }
    }

    /// The state when the next action is begun. One without units is dropped, one without a
    /// carrier waits.
    pub open spec fn move_begun(self, spendable: Seq<Record>, now_ms: u64) -> App {
        if self.pending_dirs.len() == 0 {
            self
        } else {
            let direction = self.pending_dirs[0];
            let taken = App { pending_dirs: self.pending_dirs.drop_first(), ..self };
            if self.move_balances[direction as int] == 0 {
                taken.logged("no "@ + UPPER_NAMES[direction as int]@ + " assets left"@)
            } else if self.next_step(spendable, now_ms) is None {
                self.logged("waiting for the action asset carrier"@)
            } else {
                App { sending: true, ..taken }
            }
        }
    }

    /// The state when an action is prepared, or could not be and waits again.
    pub open spec fn move_prepared(
        self,
        direction: u8,
        result: Result<Prepared, Seq<char>>,
    ) -> App {
        let idle = App { sending: false, ..self };
        match result {
            Err(error) => App {
                pending_dirs: seq![direction] + self.pending_dirs,
                ..idle
            }.send_failed("move"@, error),
            Ok(tx) => idle.logged(
                "move "@ + super::short(tx.txid) + " prepared; persisting before submission"@,
            ).prepared(tx, Purpose::Move(direction, self.next_sequence)),
        }
    }
}

proof fn lemma_filter_total(records: Seq<Record>, pred: spec_fn(Record) -> bool)
    ensures
        super::total_sats(records.filter(pred)) <= super::total_sats(records),
    decreases records.len(),
{
    reveal(Seq::filter);
    if records.len() > 0 {
        lemma_filter_total(records.drop_last(), pred);
        let rest = records.drop_last().filter(pred);
        if pred(records.last()) {
            assert(rest.push(records.last()).drop_last() =~= rest);
        }
    }
}

impl GameApp {
    fn select_sweepable(&self, spendable: &[VtxoRecord], now_ms: u64) -> (selected: Vec<VtxoRecord>)
        ensures
            arkade::records_view(selected@) == self@.sweepable(
                arkade::records_view(spendable@),
                now_ms,
            ),
    {
        let ghost all = arkade::records_view(spendable@);
        let ghost model = self@;
        let ghost wanted = |r: Record|
            super::safe_input(r, now_ms) && !model.excludes(r.outpoint);
        let mut selected: Vec<VtxoRecord> = Vec::new();
        let mut i: usize = 0;
        proof {
            seqs::lemma_filter_none(all, wanted);
            assert(arkade::records_view(selected@) =~= Seq::<Record>::empty());
        }
        while i < spendable.len()
            invariant
                i <= spendable@.len(),
                all == arkade::records_view(spendable@),
                model == self@,
                wanted == (|r: Record|
                    super::safe_input(r, now_ms) && !model.excludes(r.outpoint)),
                arkade::records_view(selected@) == all.take(i as int).filter(wanted),
            decreases spendable@.len() - i,
        {
            proof {
                seqs::lemma_filter_next(all, i as int, wanted);
                assert(all[i as int] == spendable@[i as int]@);
            }
            if super::safe_wallet_input(&spendable[i], now_ms) && !self.excludes(
                spendable[i].outpoint,
            ) {
                let ghost was = arkade::records_view(selected@);
                selected.push(spendable[i].clone());
                assert(arkade::records_view(selected@) =~= was.push(spendable@[i as int]@));
            }
            i += 1;
        }
        assert(all.take(all.len() as int) =~= all);
        selected
    }

    fn check_sweep(&self, spendable: &[VtxoRecord], destination: &str, now_ms: u64) -> (inputs: Result<
        Vec<VtxoRecord>,
        String,
    >)
        ensures
            match inputs {
                Ok(inputs) => self@.sweep_inputs(
                    arkade::records_view(spendable@),
                    destination@,
                    now_ms,
                ) == Ok::<Seq<Record>, Seq<char>>(arkade::records_view(inputs@)),
                Err(error) => self@.sweep_inputs(
                    arkade::records_view(spendable@),
                    destination@,
                    now_ms,
                ) == Err::<Seq<Record>, Seq<char>>(error@),
            },
    {
        let target: String = text::trim(destination);
        let prefix: &str = if self.params.network == Network::Bitcoin {
            "ark1"
        } else {
            "tark1"
        };
        let lowered: String = text::ascii_lowercase(target.as_str());
        if !text::starts_with(lowered.as_str(), prefix) {
            let mut error: String = super::line3("destination must be a ", prefix, " address for ");
            error.append(self.params.network_name.as_str());
            return Err(error);
        }
        let (server, canonical): ([u8; 32], String) = match address::decode_ark_address(
            target.as_str(),
        ) {
            Ok(address) => address,
            Err(error) => {
                let mut refused: String = "invalid destination Ark address: ".to_owned();
                refused.append(error.as_str());
                return Err(refused);
            },
        };
        if !same_key(&server, &self.params.signer_pk) {
            return Err("destination belongs to a different Arkade operator".to_owned());
        }
        if canonical == self.player_address {
            return Err(
                "destination must differ from this wallet; sweeping to self would merge the game carrier".to_owned(),
            );
        }
        let selected: Vec<VtxoRecord> = self.select_sweepable(spendable, now_ms);
        if selected.len() == 0 {
            return Err("no safely spendable VTXOs to sweep".to_owned());
        }
        if selected.len() > 20 {
            let count: String = text::decimal_string(selected.len() as u64);
            return Err(
                super::line3(
                    "wallet has ",
                    count.as_str(),
                    " spendable VTXOs; sweep at most 20 after consolidating",
                ),
            );
        }
        Ok(selected)
    }

    /// Begins a sweep: gives what to build it from, or reports why it is refused.
    pub fn begin_sweep(
        &mut self,
        spendable: &[VtxoRecord],
        destination: &str,
        now_ms: u64,
    ) -> (plan: Option<SweepPlan>)
        requires
            old(self)@.wf(),
            super::total_sats(arkade::records_view(spendable@)) <= u64::MAX,
        ensures
            final(self)@ == old(self)@.sweep_begun(
                arkade::records_view(spendable@),
                destination@,
                now_ms,
            ),
            final(self)@.wf(),
            match plan {
                Some(plan) => plan.recipient@ == text::trimmed(destination@)
                    && old(self)@.sweep_inputs(
                    arkade::records_view(spendable@),
                    destination@,
                    now_ms,
                ) == Ok::<Seq<Record>, Seq<char>>(arkade::records_view(plan.inputs@)),
                None => old(self)@.sweep_inputs(
                    arkade::records_view(spendable@),
                    destination@,
                    now_ms,
                ) is Err,
            },
    {
        match self.check_sweep(spendable, destination, now_ms) {
            Err(error) => {
                self.handle_send_error("wallet sweep", error.as_str());
                None
            },
            Ok(inputs) => {
                proof {
                    let model = self@;
                    lemma_filter_total(
                        arkade::records_view(spendable@),
                        |r: Record| super::safe_input(r, now_ms) && !model.excludes(r.outpoint),
                    );
                }
                let total: u64 = match super::total_amount(&inputs) {
                    Some(total) => total,
                    None => 0,
                };
                let shown: String = text::decimal_string(total);
                let recipient: String = text::trim(destination);
                let mut line: String = super::line3(
                    "sweeping ",
                    shown.as_str(),
                    " sats and all carried assets to ",
                );
                line.append(recipient.as_str());
                self.log_line(line);
                self.set_sending(true);
                Some(SweepPlan { inputs, recipient })
            },
        }
    }

    fn await_submission(&mut self, action: PendingAction)
        requires
            old(self)@.wf(),
            action@.unknown,
            action@.purpose matches Purpose::Move(direction, _) ==> direction < 6,
        ensures
            final(self)@ == old(self)@.prepared(action@.tx, action@.purpose),
            final(self)@.wf(),
    {
        self.pending_action = Some(action);
        self.pending_needs_recovery = false;
        assert(self@ =~= old(self)@.prepared(action@.tx, action@.purpose));
    }

    /// Takes in the sweep that was built and signed, or why it could not be.
    pub fn sweep_prepared(&mut self, result: Result<UnknownSubmission, String>)
        requires
            old(self)@.wf(),
        ensures
            final(self)@ == old(self)@.sweep_prepared(super::prepared_view(result)),
            final(self)@.wf(),
    {
        self.set_sending(false);
        match result {
            Err(error) => {
                self.handle_send_error("wallet sweep", error.as_str());
            },
            Ok(submission) => {
                let shown: String = super::short_txid(&submission.txid);
                self.log_line(
                    super::line3(
                        "wallet sweep ",
                        shown.as_str(),
                        " prepared; persisting before submission",
                    ),
                );
                self.await_submission(PendingAction::UnknownSweep { submission });
            },
        }
    }

    fn find_carrier(&self, spendable: &[VtxoRecord], asset: &str, now_ms: u64) -> (carrier: Option<
        VtxoRecord,
    >)
        ensures
            match carrier {
                Some(carrier) => self@.carrier_for(
                    arkade::records_view(spendable@),
                    asset@,
                    now_ms,
                ) == Some(carrier@),
                None => self@.carrier_for(
                    arkade::records_view(spendable@),
                    asset@,
                    now_ms,
                ) is None,
            },
    {
        let ghost all = arkade::records_view(spendable@);
        let mut i: usize = spendable.len();
        assert(all.take(all.len() as int) =~= all);
        while i > 0
            invariant
                i <= spendable@.len(),
                all == arkade::records_view(spendable@),
                self@.carrier_for(all, asset@, now_ms) == self@.carrier_for(
                    all.take(i as int),
                    asset@,
                    now_ms,
                ),
            decreases i,
        {
            i -= 1;
            let record: &VtxoRecord = &spendable[i];
            proof {
                assert(all.take(i + 1).drop_last() =~= all.take(i as int));
                assert(all.take(i + 1).last() == record@);
            }
            if super::safe_wallet_input(record, now_ms) && record.amount_sats
                == self.params.dust_sats && !self.excludes(record.outpoint) && super::scan_record(
                record,
                asset,
                0,
            ).2 {
                return Some(record.clone());
            }
        }
        None
    }

    fn set_queue(&mut self, dirs: Vec<u8>)
        requires
            old(self)@.wf(),
            dirs@.len() <= 1,
            dirs@.len() == 1 ==> dirs@[0] < 6,
        ensures
            final(self)@ == (App { pending_dirs: dirs@, ..old(self)@ }),
            final(self)@.wf(),
    {
        self.pending_dirs = dirs;
        assert(self@ =~= App { pending_dirs: dirs@, ..old(self)@ });
    }

    /// Begins the next action: gives what to build it from, where it can be sent.
    pub fn begin_move(&mut self, spendable: &[VtxoRecord], now_ms: u64) -> (plan: Option<MovePlan>)
        requires
            old(self)@.wf(),
            old(self)@.move_assets is Some,
        ensures
            final(self)@ == old(self)@.move_begun(arkade::records_view(spendable@), now_ms),
            final(self)@.wf(),
            match plan {
                Some(plan) => old(self)@.next_step(arkade::records_view(spendable@), now_ms)
                    == Some(plan@) && plan.direction < 6 && final(self)@.pending_dirs.len() == 0,
                None => old(self)@.next_step(arkade::records_view(spendable@), now_ms) is None,
            },
    {
        if self.pending_dirs.len() == 0 {
            return None;
        }
        let direction: u8 = self.pending_dirs[0];
        let ghost model = self@;
        assert(model.pending_dirs.drop_first() =~= Seq::<u8>::empty());
        if self.move_balances[direction as usize] == 0 {
            self.set_queue(Vec::new());
            self.log_line(
                super::line3("no ", UPPER_NAMES[direction as usize], " assets left"),
            );
            return None;
        }
        let asset_id: AssetId = match &self.move_assets {
            Some(assets) => assets[direction as usize],
            None => {
                return None;
            },
        };
        let asset: String = asset_id.to_string();
        match self.find_carrier(spendable, asset.as_str(), now_ms) {
            None => {
                self.log_line("waiting for the action asset carrier".to_owned());
                None
            },
            Some(carrier) => {
                let sequence: u32 = self.next_sequence;
                self.set_queue(Vec::new());
                self.set_sending(true);
                Some(MovePlan { carrier, asset_id, sequence, direction })
            },
        }
    }

    /// Takes in the action that was built and signed, or why it could not be.
    pub fn move_prepared(&mut self, direction: u8, result: Result<UnknownSubmission, String>)
        requires
            old(self)@.wf(),
            old(self)@.pending_dirs.len() == 0,
            direction < 6,
        ensures
            final(self)@ == old(self)@.move_prepared(direction, super::prepared_view(result)),
            final(self)@.wf(),
    {
        self.set_sending(false);
        match result {
            Err(error) => {
                let mut dirs: Vec<u8> = Vec::new();
                dirs.push(direction);
                assert(dirs@ =~= seq![direction] + old(self)@.pending_dirs);
                self.set_queue(dirs);
                self.handle_send_error("move", error.as_str());
            },
            Ok(submission) => {
                let shown: String = super::short_txid(&submission.txid);
                let sequence: u32 = self.next_sequence;
                self.log_line(
                    super::line3("move ", shown.as_str(), " prepared; persisting before submission"),
                );
                self.await_submission(
                    PendingAction::UnknownMove { submission, direction, sequence },
                );
            },
        }
    }
}

fn same_key(a: &[u8; 32], b: &[u8; 32]) -> (same: bool)
    ensures
        same == (a@ == b@),
{
    let mut i: usize = 0;
    while i < 32
        invariant
            i <= 32,
            forall|k: int| 0 <= k < i ==> a[k] == b[k],
        decreases 32 - i,
    {
        if a[i] != b[i] {
            assert(a@[i as int] != b@[i as int]);
            return false;
        }
        i += 1;
    }
    assert(a@ =~= b@);
    true
}

} // verus!
