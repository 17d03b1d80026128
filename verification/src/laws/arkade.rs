//! The operator's answers: what each field of a record and of the parameters is taken from.

use crate::arkade;
use crate::arkade::{
    CosignedTx, GetVtxosResponse, IndexerAsset, IndexerVtxo, InfoError, InfoResponse, Network, Page,
    Record, ServerParams, SubmitError, SubmitTxResponse, VirtualTxError, VtxoPage, VtxoRecord,
};
use crate::chain;
use crate::chain::Txid;
use crate::psbt;
use crate::psbt::Signed;
use crate::text;
use vstd::prelude::*;

verus! {

/// Whether an output in an answer can be used: it has an output point with a valid id, and a script.
pub open spec fn is_complete(v: IndexerVtxo) -> bool {
    &&& v.script is Some
    &&& v.outpoint matches Some(outpoint) && Txid::of_text(outpoint.txid@) is Some
}

/// Each field of a record is the field of that name in the answer: a flag is set exactly where the
/// answer sets it, whatever the other flags are; an amount that is missing or no number is zero; a
/// time that is missing or no number is none.
pub proof fn law_records_keep_their_fields(v: IndexerVtxo)
    requires
        is_complete(v),
    ensures
        arkade::indexed_record(v) matches Some(Some(record)) && {
            &&& Txid::of_text(v.outpoint.unwrap().txid@) == Some(record.outpoint.txid)
            &&& record.outpoint.vout == v.outpoint.unwrap().vout
            &&& record.script == v.script.unwrap()@
            &&& v.amount is None ==> record.amount_sats == 0
            &&& v.amount matches Some(amount) ==> {
                &&& text::parsed_u64(amount@) is None ==> record.amount_sats == 0
                &&& text::parsed_u64(amount@) matches Some(sats) ==> record.amount_sats == sats
            }
            &&& v.is_spent == Some(true) ==> record.is_spent
            &&& v.is_spent != Some(true) ==> !record.is_spent
            &&& v.is_preconfirmed == Some(true) ==> record.is_preconfirmed
            &&& v.is_preconfirmed != Some(true) ==> !record.is_preconfirmed
            &&& v.is_swept == Some(true) ==> record.is_swept
            &&& v.is_swept != Some(true) ==> !record.is_swept
            &&& v.is_unrolled == Some(true) ==> record.is_unrolled
            &&& v.is_unrolled != Some(true) ==> !record.is_unrolled
            &&& v.expires_at is None ==> record.expires_at is None
            &&& v.expires_at matches Some(time) ==> record.expires_at == text::parsed_i64(time@)
            &&& v.created_at is None ==> record.created_at is None
            &&& v.created_at matches Some(time) ==> record.created_at == text::parsed_i64(time@)
            &&& v.ark_txid is None ==> record.ark_txid is None
            &&& v.ark_txid matches Some(id) ==> record.ark_txid == Some(id@)
            &&& v.spent_by is None ==> record.spent_by is None
            &&& v.spent_by matches Some(id) ==> record.spent_by == Some(id@)
            &&& v.assets is None ==> record.assets.len() == 0
        },
{
}

/// The assets of a record are those of the answer that have a valid id, in their order.
pub proof fn law_valid_assets_are_kept(assets: Seq<IndexerAsset>)
    requires
        forall|i: int|
            0 <= i < assets.len() ==> chain::asset_id_of((#[trigger] assets[i]).asset_id@) is Some,
    ensures
        ({
            let kept = assets.filter_map(|a: IndexerAsset| arkade::indexed_asset(a));
            &&& kept.len() == assets.len()
            &&& forall|i: int|
                0 <= i < assets.len() ==> {
                    let asset = #[trigger] kept[i];
                    &&& asset.0 == assets[i].asset_id@
                    &&& assets[i].amount is None ==> asset.1 == 0
                    &&& assets[i].amount matches Some(amount) ==> asset.1 == match text::parsed_u64(
                        amount@,
                    ) {
                        Some(units) => units,
                        None => 0u64,
                    }
                }
        }),
    decreases assets.len(),
{
    if assets.len() > 0 {
        let rest = assets.drop_last();
        let n = assets.len() - 1;
        assert forall|i: int| 0 <= i < rest.len() implies chain::asset_id_of(
            (#[trigger] rest[i]).asset_id@,
        ) is Some by {
            assert(rest[i] == assets[i]);
        }
        law_valid_assets_are_kept(rest);
        assert(chain::asset_id_of(assets[n].asset_id@) is Some);
        let f = |a: IndexerAsset| arkade::indexed_asset(a);
        let kept = assets.filter_map(f);
        let before = rest.filter_map(f);
        assert(kept == before + seq![arkade::indexed_asset(assets.last()).unwrap()]);
        assert forall|i: int| 0 <= i < n implies kept[i] == before[i] by {}
        assert forall|i: int| 0 <= i < n implies rest[i] == assets[i] by {}
    }
}

/// A record has all assets of the answer; one whose id is invalid is left out, and the others stay.
pub proof fn law_invalid_assets_are_left_out(assets: Seq<IndexerAsset>, more: IndexerAsset)
    requires
        chain::asset_id_of(more.asset_id@) is None,
    ensures
        assets.push(more).filter_map(|a: IndexerAsset| arkade::indexed_asset(a))
            == assets.filter_map(|a: IndexerAsset| arkade::indexed_asset(a)),
{
    assert(assets.push(more).drop_last() =~= assets);
}

/// The assets of a record come from the list of the answer.
pub proof fn law_records_list_their_assets(v: IndexerVtxo)
    requires
        is_complete(v),
        v.assets is Some,
    ensures
        arkade::indexed_record(v).unwrap().unwrap().assets == v.assets.unwrap()@.filter_map(
            |a: IndexerAsset| arkade::indexed_asset(a),
        ),
{
}

/// A page is read output by output: a complete one is listed behind those before it, one without an
/// output point or a script is skipped, and an invalid id spoils the page.
pub proof fn law_pages_are_read_output_by_output(vtxos: Seq<IndexerVtxo>, v: IndexerVtxo)
    ensures
        arkade::indexed_records(Seq::empty()) == Some(Seq::<Record>::empty()),
        arkade::indexed_records(vtxos) matches Some(records) ==> {
            let more = arkade::indexed_records(vtxos.push(v));
            &&& v.outpoint is None || v.script is None ==> more == Some(records)
            &&& is_complete(v) ==> more == Some(
                records.push(arkade::indexed_record(v).unwrap().unwrap()),
            )
            &&& v.outpoint is Some && v.script is Some && !is_complete(v) ==> more is None
        },
        arkade::indexed_records(vtxos) is None ==> arkade::indexed_records(vtxos.push(v)) is None,
{
    assert(vtxos.push(v).drop_last() =~= vtxos);
}

/// A page has the outputs of the answer, and says where it stands; an answer that does not say so is
/// the page that was asked for, the last.
pub proof fn law_pages_say_where_they_stand(response: GetVtxosResponse, page_index: i32)
    ensures
        arkade::page_of(response, page_index) matches Some(page) ==> {
            &&& response.vtxos is None ==> page.vtxos.len() == 0
            &&& response.vtxos matches Some(vtxos) ==> arkade::indexed_records(vtxos@) == Some(
                page.vtxos,
            )
            &&& response.page is None ==> page.current == page_index && page.next == 0
                && page.total == page_index
            &&& response.page matches Some(at) ==> {
                &&& at.current matches Some(current) ==> page.current == current
                &&& at.current is None ==> page.current == page_index
                &&& at.next matches Some(next) ==> page.next == next
                &&& at.next is None ==> page.next == 0
                &&& at.total matches Some(total) ==> page.total == total
                &&& at.total is None ==> page.total == page_index
            }
        },
        arkade::page_of(response, page_index) is None <==> (response.vtxos matches Some(vtxos)
            && arkade::indexed_records(vtxos@) is None),
{
}

/// Paging goes on exactly where a later page is named and the last is not reached.
pub proof fn law_paging_goes_on_to_the_last_page(page: Page, next: i32)
    ensures
        arkade::next_page(page) == Some(next) <==> next == page.next && page.next > page.current
            && page.next >= 1 && page.current < page.total,
{
}

/// Taking in a page adds an output exactly where none of its output point is listed yet.
pub proof fn law_new_outputs_are_added(records: Seq<Record>, page: Seq<Record>, record: Record)
    ensures
        arkade::with_page(records, Seq::empty()) == records,
        ({
            let known = arkade::with_page(records, page);
            let more = arkade::with_page(records, page.push(record));
            let listed = exists|i: int|
                0 <= i < known.len() && (#[trigger] known[i]).outpoint == record.outpoint;
            more == if listed {
                known
            } else {
                known.push(record)
            }
        }),
{
    assert(page.push(record).drop_last() =~= page);
}

/// The view of a record shows each field as it is.
pub proof fn law_views_show_records(record: VtxoRecord, page: VtxoPage)
    ensures
        record@.outpoint == record.outpoint,
        record@.script == record.script@,
        record@.amount_sats == record.amount_sats,
        record@.is_spent == record.is_spent,
        record@.is_preconfirmed == record.is_preconfirmed,
        record@.is_swept == record.is_swept,
        record@.is_unrolled == record.is_unrolled,
        record@.expires_at == record.expires_at,
        record@.created_at == record.created_at,
        record.ark_txid matches Some(id) ==> record@.ark_txid == Some(id@),
        record.ark_txid is None ==> record@.ark_txid is None,
        record.spent_by matches Some(id) ==> record@.spent_by == Some(id@),
        record.spent_by is None ==> record@.spent_by is None,
        record@.assets.len() == record.assets@.len(),
        forall|i: int|
            0 <= i < record.assets@.len() ==> (#[trigger] record@.assets[i]) == (
                record.assets@[i].0@,
                record.assets@[i].1,
            ),
        page@.current == page.current,
        page@.next == page.next,
        page@.total == page.total,
        page@.vtxos.len() == page.vtxos@.len(),
        forall|i: int|
            0 <= i < page.vtxos@.len() ==> (#[trigger] page@.vtxos[i]) == page.vtxos@[i]@,
{
}

/// The view of the parameters shows each field as it is.
pub proof fn law_views_show_parameters(params: ServerParams)
    ensures
        params@.server_version == params.server_version@,
        params@.signer_pk == params.signer_pk@,
        params@.forfeit_pk == params.forfeit_pk@,
        params@.network == params.network,
        params@.network_name == params.network_name@,
        params@.dust_sats == params.dust_sats,
        params@.vtxo_min_sats == params.vtxo_min_sats,
        params@.unilateral_exit_delay == params.unilateral_exit_delay,
        params@.max_op_return_outputs == params.max_op_return_outputs,
        params@.checkpoint_tapscript == params.checkpoint_tapscript@,
        params@.forfeit_address == params.forfeit_address@,
{
}

/// A network has one or two names.
pub proof fn law_networks_are_named(name: Seq<char>)
    ensures
        arkade::network_named(name) is Some ==> {
            ||| name == "bitcoin"@
            ||| name == "mainnet"@
            ||| name == "mutinynet"@
            ||| name == "signet"@
            ||| name == "regtest"@
            ||| name == "testnet"@
            ||| name == "testnet4"@
        },
        arkade::network_named("bitcoin"@) == Some(Network::Bitcoin),
        arkade::network_named("mainnet"@) == Some(Network::Bitcoin),
        arkade::network_named("mutinynet"@) == Some(Network::Signet),
        arkade::network_named("signet"@) == Some(Network::Signet),
        arkade::network_named("regtest"@) == Some(Network::Regtest),
        arkade::network_named("testnet"@) == Some(Network::Testnet),
        arkade::network_named("testnet4"@) == Some(Network::Testnet4),
{
    reveal_strlit("bitcoin");
    reveal_strlit("mainnet");
    reveal_strlit("mutinynet");
    reveal_strlit("signet");
    reveal_strlit("regtest");
    reveal_strlit("testnet");
    reveal_strlit("testnet4");
    assert("bitcoin"@[0] == 'b' && "mainnet"@[0] == 'm' && "mutinynet"@[0] == 'm' && "signet"@[0]
        == 's' && "regtest"@[0] == 'r' && "testnet"@[0] == 't' && "testnet4"@[0] == 't');
    assert("mainnet"@.len() == 7 && "mutinynet"@.len() == 9 && "testnet"@.len() == 7
        && "testnet4"@.len() == 8);
}

/// A delay below 512 is a number of blocks; from there on it is seconds, counted in units of 512 and
/// rounded up, as long as sixteen bits can count them. A negative or longer one is refused.
pub proof fn law_exit_delays_are_blocks_or_seconds(value: i64)
    ensures
        value < 0 ==> arkade::exit_sequence(value) == Err::<u32, InfoError>(
            InfoError::NegativeExitDelay,
        ),
        0 <= value < 512 ==> arkade::exit_sequence(value) == Ok::<u32, InfoError>(value as u32),
        512 <= value <= 33_553_920 ==> (arkade::exit_sequence(value) matches Ok(sequence) && {
            &&& 4_194_305 <= sequence <= 4_259_839
            &&& 512 * (sequence - 4_194_305) < value <= 512 * (sequence - 4_194_304)
        }),
        value > 33_553_920 ==> arkade::exit_sequence(value) == Err::<u32, InfoError>(
            InfoError::ExitDelayTooLong,
        ),
{
    if 512 <= value <= 33_553_920 {
        arkade::law_exit_delay_is_rounded_up(value);
    }
}

/// Every accepted parameter is read from the field of that name.
pub proof fn law_parameters_keep_their_fields(info: InfoResponse)
    requires
        arkade::params_of(info) is Ok,
    ensures
        ({
            let params = arkade::params_of(info)->Ok_0;
            &&& info.version is None ==> params.server_version == "unknown"@
            &&& info.version matches Some(version) ==> params.server_version == version@
            &&& arkade::public_key(info.signer_pubkey@) matches Some(signer) && params.signer_pk
                == signer.0
            &&& info.forfeit_pubkey matches Some(key) ==> (arkade::public_key(key@) matches Some(
                forfeit,
            ) && params.forfeit_pk == forfeit.1)
            &&& info.forfeit_pubkey is None ==> (arkade::public_key(
                info.signer_pubkey@,
            ) matches Some(forfeit) && params.forfeit_pk == forfeit.1)
            &&& params.network_name == text::lower(info.network@)
            &&& arkade::network_named(text::lower(info.network@)) == Some(params.network)
            &&& text::parsed_u64(info.dust@) == Some(params.dust_sats)
            &&& text::parsed_i64(info.unilateral_exit_delay@) matches Some(delay)
                && arkade::exit_sequence(delay) == Ok::<u32, InfoError>(
                params.unilateral_exit_delay,
            )
            &&& text::hex_bytes(info.checkpoint_tapscript@) == Some(params.checkpoint_tapscript)
            &&& arkade::checked_address(info.forfeit_address@, params.network)
                == arkade::CheckedAddress::Valid(params.forfeit_address)
            &&& info.vtxo_min_amount is None ==> params.vtxo_min_sats == 1
            &&& info.vtxo_min_amount matches Some(amount) ==> params.vtxo_min_sats
                == match text::parsed_u64(amount@) {
                Some(sats) => sats,
                None => 1u64,
            }
            &&& info.max_op_return_outputs is None ==> params.max_op_return_outputs == 0
            &&& info.max_op_return_outputs matches Some(count) ==> params.max_op_return_outputs
                == match text::parsed_i64(count@) {
                Some(count) => count,
                None => 0i64,
            }
        }),
{
}

/// Parameters are accepted where every field they need can be read.
pub proof fn law_readable_parameters_are_accepted(info: InfoResponse)
    requires
        arkade::public_key(info.signer_pubkey@) is Some,
        info.forfeit_pubkey matches Some(key) ==> arkade::public_key(key@) is Some,
        arkade::network_named(text::lower(info.network@)) is Some,
        text::parsed_i64(info.unilateral_exit_delay@) matches Some(delay) && 0 <= delay
            <= 33_553_920,
        text::hex_bytes(info.checkpoint_tapscript@) is Some,
        arkade::checked_address(
            info.forfeit_address@,
            arkade::network_named(text::lower(info.network@)).unwrap(),
        ) is Valid,
        text::parsed_u64(info.dust@) is Some,
    ensures
        arkade::params_of(info) is Ok,
{
    law_exit_delays_are_blocks_or_seconds(
        text::parsed_i64(info.unilateral_exit_delay@).unwrap(),
    );
}

/// A virtual transaction is read as a PSBT in base64 where it is one, and else as hexadecimal text;
/// a list of them entry by entry.
pub proof fn law_virtual_transactions_are_read(entries: Seq<Seq<char>>, entry: Seq<char>)
    ensures
        psbt::psbt_of_text(entry) matches Ok(tx) ==> arkade::virtual_tx(entry) == Ok::<
            Signed,
            VirtualTxError,
        >(tx),
        psbt::psbt_of_text(entry) is Err && text::hex_bytes(entry) is None ==> arkade::virtual_tx(
            entry,
        ) == Err::<Signed, VirtualTxError>(VirtualTxError::NeitherPsbtNorHex),
        psbt::psbt_of_text(entry) is Err ==> (text::hex_bytes(entry) matches Some(raw) ==> (
        psbt::wrapped_transaction(raw) matches Some(Some(tx)) ==> arkade::virtual_tx(entry) == Ok::<
            Signed,
            VirtualTxError,
        >(tx))),
        arkade::virtual_txs(Seq::empty()) == Ok::<Seq<Signed>, VirtualTxError>(Seq::empty()),
        arkade::virtual_txs(entries) matches Ok(done) ==> arkade::virtual_txs(entries.push(entry))
            == match arkade::virtual_tx(entry) {
            Ok(tx) => Ok::<Seq<Signed>, VirtualTxError>(done.push(tx)),
            Err(error) => Err(error),
        },
        arkade::virtual_txs(entries) matches Err(error) ==> arkade::virtual_txs(entries.push(entry))
            == Err::<Seq<Signed>, VirtualTxError>(error),
{
    assert(entries.push(entry).drop_last() =~= entries);
}

/// A cosigned transaction has the id that the operator reports, where that is one, and else its own;
/// and all checkpoints of the answer.
pub proof fn law_cosigned_transactions_are_read(response: SubmitTxResponse)
    ensures
        response.final_ark_tx is None ==> arkade::cosigned_tx(response) == Err::<
            arkade::Cosigned,
            SubmitError,
        >(SubmitError::MissingArkTx),
        arkade::cosigned_tx(response) matches Ok(tx) ==> {
            &&& response.final_ark_tx matches Some(ark) && psbt::psbt_of_text(ark@) == Ok::<
                Signed,
                psbt::PsbtFault,
            >(tx.signed_ark)
            &&& response.ark_txid is None ==> tx.txid == tx.signed_ark.txid()
            &&& response.ark_txid matches Some(id) ==> {
                &&& Txid::of_text(id@) is None ==> tx.txid == tx.signed_ark.txid()
                &&& Txid::of_text(id@) matches Some(txid) ==> tx.txid == txid
            }
            &&& response.signed_checkpoint_txs is None ==> tx.checkpoints.len() == 0
            &&& response.signed_checkpoint_txs matches Some(list) ==> tx.checkpoints.len()
                == list@.len()
            &&& response.signed_checkpoint_txs matches Some(list) ==> forall|i: int|
                0 <= i < list@.len() ==> psbt::psbt_of_text(list@[i]@) == Ok::<
                    Signed,
                    psbt::PsbtFault,
                >(#[trigger] tx.checkpoints[i])
        },
{
    if let Ok(tx) = arkade::cosigned_tx(response) {
        if let Some(list) = response.signed_checkpoint_txs {
            lemma_texts_are_read(text::texts(list@));
        } else {
            lemma_texts_are_read(Seq::empty());
        }
    }
}

proof fn lemma_texts_are_read(texts: Seq<Seq<char>>)
    ensures
        psbt::psbts_of_texts(texts) matches Ok(psbts) ==> psbts.len() == texts.len() && forall|i: int|
            0 <= i < texts.len() ==> psbt::psbt_of_text(texts[i]) == Ok::<Signed, psbt::PsbtFault>(
                #[trigger] psbts[i],
            ),
    decreases texts.len(),
{
    if texts.len() > 0 {
        let rest = texts.drop_last();
        lemma_texts_are_read(rest);
        if let Ok(psbts) = psbt::psbts_of_texts(texts) {
            let before = psbt::psbts_of_texts(rest)->Ok_0;
            assert forall|i: int| 0 <= i < texts.len() implies psbt::psbt_of_text(texts[i]) == Ok::<
                Signed,
                psbt::PsbtFault,
            >(#[trigger] psbts[i]) by {
                if i < rest.len() {
                    assert(psbts[i] == before[i]);
                    assert(rest[i] == texts[i]);
                }
            }
        }
    }
}

/// The listing of cosigned transactions is read entry by entry.
pub proof fn law_pending_answers_are_read(
    responses: Seq<SubmitTxResponse>,
    response: SubmitTxResponse,
    tx: CosignedTx,
)
    ensures
        arkade::cosigned_txs(Seq::empty()) == Ok::<Seq<arkade::Cosigned>, SubmitError>(Seq::empty()),
        arkade::cosigned_txs(responses) matches Ok(done) ==> arkade::cosigned_txs(
            responses.push(response),
        ) == match arkade::cosigned_tx(response) {
            Ok(more) => Ok::<Seq<arkade::Cosigned>, SubmitError>(done.push(more)),
            Err(error) => Err(error),
        },
        tx@.txid == tx.txid,
        tx@.signed_ark == tx.signed_ark@,
        tx@.checkpoints == psbt::psbts_view(tx.checkpoints@),
{
    assert(responses.push(response).drop_last() =~= responses);
}

/// The address of a page names the scripts, each behind `scripts=`, the size and the index of the
/// page, and the filter if there is one.
pub proof fn law_page_addresses_name_what_is_asked(
    base: Seq<char>,
    one: Seq<char>,
    two: Seq<char>,
    filter: Seq<char>,
    size: i32,
    index: i32,
)
    ensures
        ({
            let tail = "&page.size="@ + text::int_text(size as int) + "&page.index="@
                + text::int_text(index as int) + if filter.len() == 0 {
                Seq::empty()
            } else {
                "&"@ + filter + "=true"@
            };
            &&& arkade::vtxos_query(base, seq![one], filter, size, index) == base
                + "/v1/indexer/vtxos?"@ + "scripts="@ + one + tail
            &&& arkade::vtxos_query(base, seq![one, two], filter, size, index) == base
                + "/v1/indexer/vtxos?"@ + "scripts="@ + one + "&"@ + "scripts="@ + two + tail
        }),
{
    let f = |s: Seq<char>| "scripts="@ + s;
    let single = seq![one].map_values(f);
    let double = seq![one, two].map_values(f);
    assert(single =~= seq!["scripts="@ + one]);
    assert(double =~= seq!["scripts="@ + one, "scripts="@ + two]);
    assert(double.drop_last() =~= single);
    reveal_with_fuel(text::joined, 3);
    assert(text::joined(single, "&"@) == "scripts="@ + one);
    assert(text::joined(double, "&"@) == "scripts="@ + one + "&"@ + ("scripts="@ + two));
    let tail = "&page.size="@ + text::int_text(size as int) + "&page.index="@ + text::int_text(
        index as int,
    ) + if filter.len() == 0 {
        Seq::empty()
    } else {
        "&"@ + filter + "=true"@
    };
    assert(arkade::vtxos_query(base, seq![one], filter, size, index) =~= base
        + "/v1/indexer/vtxos?"@ + "scripts="@ + one + tail);
    assert(arkade::vtxos_query(base, seq![one, two], filter, size, index) =~= base
        + "/v1/indexer/vtxos?"@ + "scripts="@ + one + "&"@ + "scripts="@ + two + tail);
}

} // verus!
