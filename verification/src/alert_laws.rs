//! What the alerts say of a transaction, and which alerts it raises.

use vstd::prelude::*;

use crate::counting::{
    amounts, counts_are_of_slots, held, is_of, is_spent, is_unspent, sum, sums_are_of_slots,
};
use crate::events::{event_views, output_evidence, SentinelEvent, SentinelOutputEvidence};
use crate::index::texts;
use crate::intelligence::slot_amounts;
use crate::json::{json_fields, Field};
use crate::keys::{key_text, key_text_is_injective, KEY_BYTES};
use crate::laws::lemma_receiver_event_is_there;
use crate::model::{
    receiver_is_within_the_whole, slots_are_spent_or_unspent, wallets, wallets_are_the_receivers,
    wallets_are_whole_keys, Tx,
};
use crate::outputs::{slot_of, slots_of, stored_keys_are_whole, whole_keys, Slot, TxOutput};
use crate::rank::{ahead, leader, leader_is_first_largest, ranking, ranking_ranks};
use crate::rules::{
    coin_text, evidence_for, match_views, output_event, output_events, output_facts,
    receiver_event, receiver_events, receiver_facts, total_event, total_events, tx_links,
    OutputFactView,
    ReceiverAggregateFact, ReceiverView, RuleInputView, RuleMatch, TxOutputFact, TxRuleInput,
};
use crate::scanner::{
    ranked_receivers, receiver_at, rule_input, slot_facts, tx_events, tx_facts, DecodedTxFacts,
    ScanConfig,
};
use crate::tally::wallet_totals;
use crate::text::{decimal, lower_text};

verus! {

// ---------------------------------------------------------------------------
// What is known of a transaction
// ---------------------------------------------------------------------------

proof fn lemma_facts_are_of_slots(slots: Seq<Slot>)
    requires
        slots.len() <= u32::MAX + 1,
    ensures
        slot_facts(slots).len() == slots.filter(is_unspent()).len(),
        forall|p: int|
            0 <= p < slot_facts(slots).len() ==> {
                let fact = #[trigger] slot_facts(slots)[p];
                &&& fact.index < slots.len()
                &&& slots[fact.index as int] matches Some((amount, key)) && fact.address
                    == key_text(key) && fact.amount_atomic == amount && fact.amount_display
                    == coin_text(amount)
            },
        forall|p: int, q: int|
            0 <= p < q < slot_facts(slots).len() ==> (#[trigger] slot_facts(slots)[p]).index < (
            #[trigger] slot_facts(slots)[q]).index,
    decreases slots.len(),
{
    reveal(Seq::filter);
    if slots.len() > 0 {
        let rest = slots.drop_last();
        lemma_facts_are_of_slots(rest);
        let before = slot_facts(rest);
        let now = slot_facts(slots);
        assert forall|p: int| 0 <= p < before.len() implies now[p] == #[trigger] before[p] by {}
        assert forall|p: int| 0 <= p < now.len() implies ({
            let fact = #[trigger] now[p];
            &&& fact.index < slots.len()
            &&& slots[fact.index as int] matches Some((amount, key)) && fact.address == key_text(
                key,
            ) && fact.amount_atomic == amount && fact.amount_display == coin_text(amount)
        }) by {
            if p < before.len() {
                assert(now[p] == before[p]);
                assert(rest[before[p].index as int] == slots[before[p].index as int]);
            }
        }
        assert forall|p: int, q: int| 0 <= p < q < now.len() implies (#[trigger] now[p]).index < (
        #[trigger] now[q]).index by {
            assert(now[p] == before[p]);
            if q < before.len() {
                assert(now[q] == before[q]);
            }
        }
    }
}

/// The facts of a transaction count its outputs and list the unspent ones, each once, in order and
/// with its position, receiver and amount. The largest output is the first of them that is as
/// large.
pub proof fn facts_are_of_the_outputs(
    txid: Seq<char>,
    outputs: Seq<Option<TxOutput>>,
    facts: DecodedTxFacts,
)
    requires
        facts@ == tx_facts(Tx { txid, slots: slots_of(outputs) }),
        outputs.len() <= usize::MAX,
        outputs.len() <= u32::MAX + 1,
    ensures
        ({
            let slots = slots_of(outputs);
            &&& facts.txid@ == txid
            &&& facts.output_count == outputs.len()
            &&& facts.unspent_count == slots.filter(is_unspent()).len()
            &&& facts.spent_count == facts.output_count - facts.unspent_count
            &&& facts.tx_total_unspent_atomic == held(sum(amounts(slots)))
            &&& facts.outputs@.len() == facts.unspent_count
            &&& forall|p: int|
                0 <= p < facts.outputs@.len() ==> {
                    let fact = #[trigger] facts.outputs@[p];
                    &&& fact.index < outputs.len()
                    &&& outputs[fact.index as int] matches Some(out) && fact.address@ == key_text(
                        out.receiver@,
                    ) && fact.amount_atomic == out.amount && fact.amount_display@ == coin_text(
                        out.amount,
                    )
                }
            &&& forall|p: int, q: int|
                0 <= p < q < facts.outputs@.len() ==> (#[trigger] facts.outputs@[p]).index < (
                #[trigger] facts.outputs@[q]).index
            &&& forall|i: int|
                0 <= i < outputs.len() ==> #[trigger] amounts(slots)[i]
                    <= facts.largest_output_atomic
            &&& match (facts.largest_output_index, facts.largest_output_address) {
                (Some(i), Some(address)) => {
                    &&& i < outputs.len()
                    &&& outputs[i as int] matches Some(out) && out.amount
                        == facts.largest_output_atomic && out.amount > 0 && address@ == key_text(
                        out.receiver@,
                    )
                    &&& forall|j: int|
                        0 <= j < i ==> #[trigger] amounts(slots)[j] < facts.largest_output_atomic
                },
                (None, None) => facts.largest_output_atomic == 0,
                _ => false,
            }
        }),
{
    let slots = slots_of(outputs);
    counts_are_of_slots(slots, seq![]);
    sums_are_of_slots(slots, seq![]);
    slots_are_spent_or_unspent(slots);
    lemma_facts_are_of_slots(slots);
    assert(output_facts(facts.outputs@).len() == facts.outputs@.len());
    assert(facts@.outputs == slot_facts(slots));
    assert forall|p: int| 0 <= p < facts.outputs@.len() implies facts.outputs@[p]@
        == #[trigger] slot_facts(slots)[p] by {
        assert(output_facts(facts.outputs@)[p] == facts.outputs@[p]@);
    }
    assert forall|p: int| 0 <= p < facts.outputs@.len() implies ({
        let fact = #[trigger] facts.outputs@[p];
        &&& fact.index < outputs.len()
        &&& outputs[fact.index as int] matches Some(out) && fact.address@ == key_text(out.receiver@)
            && fact.amount_atomic == out.amount && fact.amount_display@ == coin_text(out.amount)
    }) by {
        let fact = facts.outputs@[p];
        assert(fact@ == slot_facts(slots)[p]);
        assert(slots[fact.index as int] == slot_of(outputs[fact.index as int]));
    }
    assert forall|p: int, q: int| 0 <= p < q < facts.outputs@.len() implies (
    #[trigger] facts.outputs@[p]).index < (#[trigger] facts.outputs@[q]).index by {
        assert(facts.outputs@[p]@ == slot_facts(slots)[p]);
        assert(facts.outputs@[q]@ == slot_facts(slots)[q]);
    }
    leader_is_first_largest(slot_amounts(slots), 0);
    assert forall|i: int| 0 <= i < outputs.len() implies #[trigger] amounts(slots)[i]
        <= facts.largest_output_atomic by {
        assert(slot_amounts(slots)[i] == amounts(slots)[i]);
    }
    if let Some(i) = leader(slot_amounts(slots), 0) {
        assert(slots[i] == slot_of(outputs[i]));
        assert forall|j: int| 0 <= j < i implies #[trigger] amounts(slots)[j]
            < facts.largest_output_atomic by {
            assert(slot_amounts(slots)[j] == amounts(slots)[j]);
        }
    }
}

/// The receivers in the facts of a transaction are those of its unspent outputs, each once and with
/// what it gets in how many outputs; none gets more than one that stands before it.
pub proof fn receivers_are_of_the_outputs(
    txid: Seq<char>,
    outputs: Seq<Option<TxOutput>>,
    facts: DecodedTxFacts,
    key: Seq<u8>,
)
    requires
        facts@ == tx_facts(Tx { txid, slots: slots_of(outputs) }),
        outputs.len() <= usize::MAX,
        key.len() == KEY_BYTES,
    ensures
        ({
            let slots = slots_of(outputs);
            let rows = facts.receiver_aggregates@;
            &&& forall|p: int|
                0 <= p < rows.len() && (#[trigger] rows[p]).address@ == key_text(key) ==> {
                    &&& rows[p].output_count == slots.filter(is_of(key)).len()
                    &&& rows[p].total_atomic == held(sum(amounts(slots.filter(is_of(key)))))
                    &&& rows[p].total_display@ == coin_text(rows[p].total_atomic)
                    &&& rows[p].output_count > 0
                }
            &&& slots.filter(is_of(key)).len() > 0 ==> exists|p: int|
                0 <= p < rows.len() && (#[trigger] rows[p]).address@ == key_text(key)
            &&& forall|p: int, q: int|
                0 <= p < q < rows.len() ==> (#[trigger] rows[p]).total_atomic >= (
                #[trigger] rows[q]).total_atomic && rows[p].address@ != rows[q].address@
        }),
{
    let slots = slots_of(outputs);
    let rows = facts.receiver_aggregates@;
    let totals = wallet_totals(slots);
    let order = ranking(totals);
    stored_keys_are_whole(outputs);
    wallets_are_whole_keys(slots);
    wallets_are_the_receivers(slots);
    ranking_ranks(totals);
    counts_are_of_slots(slots, key);
    sums_are_of_slots(slots, key);
    receiver_is_within_the_whole(slots, key);
    slots_are_spent_or_unspent(slots);
    assert(receiver_facts(rows) == ranked_receivers(slots));
    assert(receiver_facts(rows).len() == rows.len());
    assert forall|p: int| 0 <= p < rows.len() implies (#[trigger] rows[p])@ == receiver_at(
        slots,
        order[p],
    ) by {
        assert(receiver_facts(rows)[p] == rows[p]@);
    }
    assert forall|p: int| 0 <= p < rows.len() && (#[trigger] rows[p]).address@ == key_text(
        key,
    ) implies ({
        &&& rows[p].output_count == slots.filter(is_of(key)).len()
        &&& rows[p].total_atomic == held(sum(amounts(slots.filter(is_of(key)))))
        &&& rows[p].total_display@ == coin_text(rows[p].total_atomic)
        &&& rows[p].output_count > 0
    }) by {
        assert(rows[p]@ == receiver_at(slots, order[p]));
        key_text_is_injective(wallets(slots)[order[p]], key);
        assert(wallets(slots).contains(key));
    }
    if slots.filter(is_of(key)).len() > 0 {
        assert(wallets(slots).contains(key));
        let place = choose|place: int|
            0 <= place < wallets(slots).len() && wallets(slots)[place] == key;
        assert(order.contains(place));
        let p = choose|p: int| 0 <= p < order.len() && order[p] == place;
        assert(rows[p]@ == receiver_at(slots, place));
    }
    assert forall|p: int, q: int| 0 <= p < q < rows.len() implies (#[trigger] rows[p]).total_atomic
        >= (#[trigger] rows[q]).total_atomic && rows[p].address@ != rows[q].address@ by {
        assert(rows[p]@ == receiver_at(slots, order[p]));
        assert(rows[q]@ == receiver_at(slots, order[q]));
        assert(ahead(totals, order[p], order[q]));
        if rows[p].address@ == rows[q].address@ {
            key_text_is_injective(wallets(slots)[order[p]], wallets(slots)[order[q]]);
        }
    }
}

// ---------------------------------------------------------------------------
// What an alert says
// ---------------------------------------------------------------------------

/// Whether a row of evidence is an output: its position, its receiver and its amount.
pub open spec fn is_row_of(row: SentinelOutputEvidence, fact: TxOutputFact) -> bool {
    &&& row.index == fact.index
    &&& row.address@ == fact.address@
    &&& row.amount_atomic == fact.amount_atomic
    &&& row.amount_display@ == fact.amount_display@
}

/// Whether an event is open, was seen where and when the rules were told, and links to the
/// transaction.
pub open spec fn is_seen_in(event: SentinelEvent, input: TxRuleInput) -> bool {
    &&& event.schema_version@ == "1.0.0"@
    &&& event.status@ == "open"@
    &&& event.detected_at@ == input.detected_at@
    &&& event.network.chain@ == input.network.chain@
    &&& event.network.network_type@ == input.network.network_type@
    &&& event.network.node_id@ == input.network.node_id@
    &&& event.network.db_height == input.network.db_height
    &&& event.network.best_tip_hash@ == input.network.best_tip_hash@
    &&& event.block.height == input.block.height
    &&& event.block.hash@ == input.block.hash@
    &&& event.block.prev_hash@ == input.block.prev_hash@
    &&& event.block.timestamp@ == input.block.timestamp@
    &&& event.block.tx_count == input.block.tx_count
    &&& event.block.coinbase_txid@ == input.block.coinbase_txid@
    &&& event.links matches Some(links) && {
        &&& links.explorer_block_url is None
        &&& links.explorer_tx_url matches Some(url) && url@ == "/api/decode/"@ + input.txid@
        &&& links.internal_api_url matches Some(url) && url@ == "/api/get/"@ + input.txid@
    }
}

/// Whether an event says nothing of coinbases, and nothing beyond its own fields.
pub open spec fn says_no_more(event: SentinelEvent) -> bool {
    let none = Map::<Seq<char>, Field>::empty();
    &&& event.anomaly.expected.subsidy_atomic is None
    &&& event.anomaly.expected.fees_atomic is None
    &&& event.anomaly.expected.allowed_coinbase_atomic is None
    &&& event.anomaly.observed.coinbase_total_atomic is None
    &&& json_fields(event.anomaly.delta.extra) == none
    &&& json_fields(event.evidence.extra) == none
    &&& event.impact matches Some(impact) && json_fields(impact.extra) == none
}

/// Whether an event calls for a manual review and warns exchanges, but freezes nothing; whether it
/// pages somebody, and warns of the consensus.
pub open spec fn calls_for_review(event: SentinelEvent, page: bool, consensus: bool) -> bool {
    &&& event.disposition matches Some(d) && d.should_page == Some(page)
        && d.should_freeze_exchange == Some(false) && d.should_freeze_pool == Some(false)
        && d.requires_manual_review == Some(true)
    &&& event.impact matches Some(impact) && impact.potential_exchange_risk == Some(true)
        && impact.potential_consensus_risk == Some(consensus)
        && impact.estimated_supply_increase_atomic is None
        && impact.estimated_supply_increase_display is None
}

/// Whether an event says by how much an amount exceeds a threshold, and how often it holds it.
pub open spec fn exceeds_by(event: SentinelEvent, amount: u64, threshold: u64) -> bool {
    &&& event.anomaly.delta.excess_atomic matches Some(excess) && excess + threshold == amount
    &&& event.anomaly.delta.reward_ratio matches Some(ratio) && ratio.part == amount && ratio.whole
        == threshold
}

proof fn lemma_rule_ids_in_lower_case()
    ensures
        lower_text("RULE-OUTPUT-001"@) == "rule-output-001"@,
        lower_text("RULE-TXTOTAL-001"@) == "rule-txtotal-001"@,
        lower_text("RULE-RECV-001"@) == "rule-recv-001"@,
{
    reveal_strlit("RULE-OUTPUT-001");
    reveal_strlit("rule-output-001");
    reveal_strlit("RULE-TXTOTAL-001");
    reveal_strlit("rule-txtotal-001");
    reveal_strlit("RULE-RECV-001");
    reveal_strlit("rule-recv-001");
    assert(lower_text("RULE-OUTPUT-001"@) =~= "rule-output-001"@);
    assert(lower_text("RULE-TXTOTAL-001"@) =~= "rule-txtotal-001"@);
    assert(lower_text("RULE-RECV-001"@) =~= "rule-recv-001"@);
}

/// Paying at least so much.
pub open spec fn is_large(threshold: u64) -> spec_fn(TxOutputFact) -> bool {
    |fact: TxOutputFact| fact.amount_atomic >= threshold
}

proof fn lemma_output_events_are(input: RuleInputView, threshold: u64, facts: Seq<TxOutputFact>)
    ensures
        output_events(input, threshold, output_facts(facts)) == facts.filter(
            is_large(threshold),
        ).map_values(|fact: TxOutputFact| output_event(input, threshold, fact@)),
    decreases facts.len(),
{
    reveal(Seq::filter);
    let say = |fact: TxOutputFact| output_event(input, threshold, fact@);
    if facts.len() > 0 {
        let rest = facts.drop_last();
        lemma_output_events_are(input, threshold, rest);
        assert(output_facts(facts).drop_last() =~= output_facts(rest));
        let kept = rest.filter(is_large(threshold));
        assert(kept.push(facts.last()).map_values(say) =~= kept.map_values(say).push(
            say(facts.last()),
        ));
    }
    assert(output_events(input, threshold, output_facts(facts)) =~= facts.filter(
        is_large(threshold),
    ).map_values(say));
}

/// The rule on single outputs raises one event for each output that reaches the threshold, in their
/// order. It shows just that output, and by how much it exceeds the threshold.
pub proof fn output_alerts_show_the_large_outputs(
    input: TxRuleInput,
    threshold: u64,
    found: Seq<RuleMatch>,
    i: int,
)
    requires
        match_views(found) == output_events(input@, threshold, input@.outputs),
    ensures
        found.len() == input.outputs@.filter(is_large(threshold)).len(),
        0 <= i < found.len() ==> {
            let event = found[i].event;
            let fact = input.outputs@.filter(is_large(threshold))[i];
            &&& is_seen_in(event, input)
            &&& says_no_more(event)
            &&& calls_for_review(event, true, false)
            &&& event.event_id@ == "sentinel-"@ + input.txid@ + "-out-"@ + decimal(
                fact.index as nat,
            ) + "-"@ + "rule-output-001"@
            &&& event.anomaly.rule_id@ == "RULE-OUTPUT-001"@
            &&& event.anomaly.rule_name@
                == "single output exceeds abnormal output threshold"@
            &&& event.event_type@ == "abnormal_output_value"@
            &&& event.severity@ == "high"@
            &&& event.anomaly.category@ == "tx-anomaly"@
            &&& event.anomaly.confidence_percent == 98
            &&& exceeds_by(event, fact.amount_atomic, threshold)
            &&& event.anomaly.observed.coinbase_output_count == Some(input.output_count)
            &&& json_fields(event.anomaly.expected.extra) == Map::<Seq<char>, Field>::empty()
            &&& json_fields(event.anomaly.observed.extra) == map![
                "txid"@ => Field::Text(input.txid@),
                "output_index"@ => Field::Number(fact.index as u64),
                "output_amount_atomic"@ => Field::Number(fact.amount_atomic),
                "output_address"@ => Field::Text(fact.address@),
            ]
            &&& event.evidence.coinbase_outputs@.len() == 1
            &&& is_row_of(event.evidence.coinbase_outputs@[0], fact)
            &&& texts(event.evidence.flags@) == seq![
                "abnormal_output_value"@,
                "tx_anomaly"@,
                "review_required"@,
            ]
            &&& texts(event.recommended_actions@) == seq![
                "inspect_tx_outputs"@,
                "trace_receiver_address"@,
                "review_exchange_flow"@,
            ]
            &&& texts(event.notes@) == seq![
                "Detected by RULE-OUTPUT-001"@,
                "Single tx output exceeded configured threshold"@,
            ]
        },
{
    lemma_output_events_are(input@, threshold, input.outputs@);
    lemma_rule_ids_in_lower_case();
    assert(match_views(found).len() == found.len());
    if 0 <= i < found.len() {
        let event = found[i].event;
        let fact = input.outputs@.filter(is_large(threshold))[i];
        assert(match_views(found)[i] == event@);
        assert(event@ == output_event(input@, threshold, fact@));
        input.outputs@.lemma_filter_pred(is_large(threshold), i);
        let rows = event.evidence.coinbase_outputs@;
        assert(output_evidence(rows).len() == rows.len());
        assert(output_evidence(rows)[0] == rows[0]@);
    }
}

/// The rule on the total raises an event just where the total reaches the threshold. Its evidence
/// holds every unspent output in its place, so that the amounts in it add up to those of the
/// transaction.
pub proof fn total_alerts_show_every_output(
    input: TxRuleInput,
    threshold: u64,
    found: Option<RuleMatch>,
)
    requires
        match found {
            Some(m) => input.tx_total_unspent_atomic >= threshold && m.event@ == total_event(
                input@,
                threshold,
            ),
            None => input.tx_total_unspent_atomic < threshold,
        },
    ensures
        found is Some <==> input.tx_total_unspent_atomic >= threshold,
        found is Some ==> {
            let event = found->0.event;
            let rows = event.evidence.coinbase_outputs@;
            &&& rows.len() == input.outputs@.len()
            &&& forall|i: int|
                0 <= i < rows.len() ==> is_row_of(#[trigger] rows[i], input.outputs@[i])
            &&& sum(
                rows.map_values(|row: SentinelOutputEvidence| row.amount_atomic as nat),
            ) == sum(input.outputs@.map_values(|fact: TxOutputFact| fact.amount_atomic as nat))
            &&& is_seen_in(event, input)
            &&& says_no_more(event)
            &&& calls_for_review(event, true, true)
            &&& event.event_id@ == "sentinel-"@ + input.txid@ + "-"@ + "rule-txtotal-001"@
            &&& event.anomaly.rule_id@ == "RULE-TXTOTAL-001"@
            &&& event.anomaly.rule_name@
                == "tx total unspent value exceeds abnormal tx threshold"@
            &&& event.event_type@ == "supply_jump_detected"@
            &&& event.severity@ == "critical"@
            &&& event.anomaly.category@ == "tx-anomaly"@
            &&& event.anomaly.confidence_percent == 99
            &&& exceeds_by(event, input.tx_total_unspent_atomic, threshold)
            &&& event.anomaly.observed.coinbase_output_count == Some(input.output_count)
            &&& json_fields(event.anomaly.expected.extra) == map![
                "abnormal_tx_total_threshold_atomic"@ => Field::Number(threshold),
            ]
            &&& json_fields(event.anomaly.observed.extra) == map![
                "txid"@ => Field::Text(input.txid@),
                "tx_total_unspent_atomic"@ => Field::Number(input.tx_total_unspent_atomic),
                "unspent_count"@ => Field::Number(input.unspent_count as u64),
                "spent_count"@ => Field::Number(input.spent_count as u64),
            ]
            &&& texts(event.evidence.flags@) == seq![
                "abnormal_tx_total"@,
                "large_value_cluster"@,
                "review_required"@,
            ]
            &&& texts(event.recommended_actions@) == seq![
                "inspect_tx_outputs"@,
                "compare_against_expected_supply"@,
                "trace_funds"@,
                "review_consensus_rules"@,
            ]
            &&& texts(event.notes@) == seq![
                "Detected by RULE-TXTOTAL-001"@,
                "Single tx entry exceeded configured total value threshold"@,
            ]
        },
{
    lemma_rule_ids_in_lower_case();
    if let Some(m) = found {
        let event = m.event;
        let rows = event.evidence.coinbase_outputs@;
        let facts = input.outputs@;
        assert(output_evidence(rows) == event@.evidence.coinbase_outputs);
        assert(output_evidence(rows).len() == rows.len());
        assert(output_facts(facts).len() == facts.len());
        assert forall|i: int| 0 <= i < rows.len() implies is_row_of(
            #[trigger] rows[i],
            facts[i],
        ) by {
            assert(output_evidence(rows)[i] == rows[i]@);
            assert(output_facts(facts)[i] == facts[i]@);
        }
        assert(rows.map_values(|row: SentinelOutputEvidence| row.amount_atomic as nat)
            =~= facts.map_values(|fact: TxOutputFact| fact.amount_atomic as nat));
    }
}

/// Getting at least so much.
pub open spec fn is_rich(threshold: u64) -> spec_fn(ReceiverAggregateFact) -> bool {
    |fact: ReceiverAggregateFact| fact.total_atomic >= threshold
}

/// Going to an address.
pub open spec fn is_to(address: Seq<char>) -> spec_fn(TxOutputFact) -> bool {
    |fact: TxOutputFact| fact.address@ == address
}

proof fn lemma_receiver_events_are(
    input: RuleInputView,
    threshold: u64,
    facts: Seq<ReceiverAggregateFact>,
)
    ensures
        receiver_events(input, threshold, receiver_facts(facts)) == facts.filter(
            is_rich(threshold),
        ).map_values(|fact: ReceiverAggregateFact| receiver_event(input, threshold, fact@)),
    decreases facts.len(),
{
    reveal(Seq::filter);
    let say = |fact: ReceiverAggregateFact| receiver_event(input, threshold, fact@);
    if facts.len() > 0 {
        let rest = facts.drop_last();
        lemma_receiver_events_are(input, threshold, rest);
        assert(receiver_facts(facts).drop_last() =~= receiver_facts(rest));
        let kept = rest.filter(is_rich(threshold));
        assert(kept.push(facts.last()).map_values(say) =~= kept.map_values(say).push(
            say(facts.last()),
        ));
    }
    assert(receiver_events(input, threshold, receiver_facts(facts)) =~= facts.filter(
        is_rich(threshold),
    ).map_values(say));
}

proof fn lemma_evidence_is_of_outputs(
    facts: Seq<TxOutputFact>,
    address: Seq<char>,
    rows: Seq<SentinelOutputEvidence>,
)
    requires
        output_evidence(rows) == evidence_for(output_facts(facts), address),
    ensures
        rows.len() == facts.filter(is_to(address)).len(),
        forall|i: int|
            0 <= i < rows.len() ==> is_row_of(
                #[trigger] rows[i],
                facts.filter(is_to(address))[i],
            ),
    decreases facts.len(),
{
    reveal(Seq::filter);
    assert(output_evidence(rows).len() == rows.len());
    if facts.len() > 0 {
        let rest = facts.drop_last();
        assert(output_facts(facts).drop_last() =~= output_facts(rest));
        if facts.last().address@ == address {
            assert(output_evidence(rows.drop_last()) =~= output_evidence(rows).drop_last());
            assert(output_evidence(rows).drop_last() =~= evidence_for(output_facts(rest), address));
            lemma_evidence_is_of_outputs(rest, address, rows.drop_last());
            assert forall|i: int| 0 <= i < rows.len() implies is_row_of(
                #[trigger] rows[i],
                facts.filter(is_to(address))[i],
            ) by {
                assert(output_evidence(rows)[i] == rows[i]@);
                if i < rows.len() - 1 {
                    assert(rows.drop_last()[i] == rows[i]);
                    assert(is_row_of(rows.drop_last()[i], rest.filter(is_to(address))[i]));
                }
            }
        } else {
            lemma_evidence_is_of_outputs(rest, address, rows);
        }
    }
}

/// The rule on receivers raises one event for each receiver that reaches the threshold, in their
/// order. Its evidence holds just the outputs to that receiver.
pub proof fn receiver_alerts_show_the_rich_receivers(
    input: TxRuleInput,
    threshold: u64,
    found: Seq<RuleMatch>,
    i: int,
)
    requires
        match_views(found) == receiver_events(input@, threshold, input@.receiver_aggregates),
    ensures
        found.len() == input.receiver_aggregates@.filter(is_rich(threshold)).len(),
        0 <= i < found.len() ==> {
            let event = found[i].event;
            let fact = input.receiver_aggregates@.filter(is_rich(threshold))[i];
            let rows = event.evidence.coinbase_outputs@;
            let theirs = input.outputs@.filter(is_to(fact.address@));
            &&& rows.len() == theirs.len()
            &&& forall|j: int| 0 <= j < rows.len() ==> is_row_of(#[trigger] rows[j], theirs[j])
            &&& is_seen_in(event, input)
            &&& says_no_more(event)
            &&& calls_for_review(event, false, false)
            &&& event.event_id@ == "sentinel-"@ + input.txid@ + "-recv-"@ + fact.address@ + "-"@
                + "rule-recv-001"@
            &&& event.anomaly.rule_id@ == "RULE-RECV-001"@
            &&& event.anomaly.rule_name@
                == "receiver concentration spike detected within one tx"@
            &&& event.event_type@ == "receiver_concentration_spike"@
            &&& event.severity@ == "medium"@
            &&& event.anomaly.category@ == "receiver-anomaly"@
            &&& event.anomaly.confidence_percent == 96
            &&& exceeds_by(event, fact.total_atomic, threshold)
            &&& event.anomaly.observed.coinbase_output_count == Some(fact.output_count)
            &&& json_fields(event.anomaly.expected.extra) == map![
                "receiver_concentration_threshold_atomic"@ => Field::Number(threshold),
            ]
            &&& json_fields(event.anomaly.observed.extra) == map![
                "txid"@ => Field::Text(input.txid@),
                "receiver"@ => Field::Text(fact.address@),
                "receiver_total_atomic"@ => Field::Number(fact.total_atomic),
                "receiver_output_count"@ => Field::Number(fact.output_count as u64),
            ]
            &&& texts(event.evidence.flags@) == seq![
                "receiver_concentration_spike"@,
                "large_receiver_cluster"@,
                "review_required"@,
            ]
            &&& texts(event.recommended_actions@) == seq![
                "inspect_receiver_cluster"@,
                "trace_address_activity"@,
            ]
            &&& texts(event.notes@) == seq![
                "Detected by RULE-RECV-001"@,
                "One receiver accumulated an unusually large share of a tx entry"@,
            ]
        },
{
    lemma_receiver_events_are(input@, threshold, input.receiver_aggregates@);
    lemma_rule_ids_in_lower_case();
    assert(match_views(found).len() == found.len());
    if 0 <= i < found.len() {
        let event = found[i].event;
        let fact = input.receiver_aggregates@.filter(is_rich(threshold))[i];
        assert(match_views(found)[i] == event@);
        assert(event@ == receiver_event(input@, threshold, fact@));
        input.receiver_aggregates@.lemma_filter_pred(is_rich(threshold), i);
        assert(output_evidence(event.evidence.coinbase_outputs@)
            == event@.evidence.coinbase_outputs);
        lemma_evidence_is_of_outputs(
            input.outputs@,
            fact.address@,
            event.evidence.coinbase_outputs@,
        );
    }
}

// ---------------------------------------------------------------------------
// Which alerts a transaction raises
// ---------------------------------------------------------------------------

/// Being an unspent output of at least so much.
pub open spec fn pays_much(threshold: u64) -> spec_fn(Slot) -> bool {
    |slot: Slot|
        match slot {
            Some((amount, _)) => amount >= threshold,
            None => false,
        }
}

/// What `key` gets in a transaction.
pub open spec fn receipts(tx: Tx, key: Seq<u8>) -> nat {
    held(sum(amounts(tx.slots.filter(is_of(key)))))
}

/// How many events a transaction raises on single outputs.
pub open spec fn output_alerts(cfg: ScanConfig, tx: Tx) -> nat {
    tx.slots.filter(pays_much(cfg.thresholds.abnormal_output_atomic)).len()
}

/// How many events a transaction raises on its total.
pub open spec fn total_alerts(cfg: ScanConfig, tx: Tx) -> nat {
    if held(sum(amounts(tx.slots))) >= cfg.thresholds.abnormal_tx_total_atomic {
        1
    } else {
        0
    }
}

proof fn lemma_output_alerts(input: RuleInputView, threshold: u64, slots: Seq<Slot>)
    ensures
        output_events(input, threshold, slot_facts(slots)).len() == slots.filter(
            pays_much(threshold),
        ).len(),
        forall|i: int|
            0 <= i < output_events(input, threshold, slot_facts(slots)).len() ==> {
                let event = #[trigger] output_events(input, threshold, slot_facts(slots))[i];
                &&& event.anomaly.rule_id == "RULE-OUTPUT-001"@
                &&& event.detected_at == input.detected_at
                &&& event.network == input.network
                &&& event.block == input.block
                &&& event.links == Some(tx_links(input.txid))
            },
    decreases slots.len(),
{
    reveal(Seq::filter);
    if slots.len() > 0 {
        let rest = slots.drop_last();
        lemma_output_alerts(input, threshold, rest);
        if slots.last() is Some {
            let facts = slot_facts(slots);
            assert(facts.drop_last() =~= slot_facts(rest));
            let before = output_events(input, threshold, slot_facts(rest));
            let now = output_events(input, threshold, facts);
            assert forall|i: int| 0 <= i < now.len() implies ({
                let event = #[trigger] now[i];
                &&& event.anomaly.rule_id == "RULE-OUTPUT-001"@
                &&& event.detected_at == input.detected_at
                &&& event.network == input.network
                &&& event.block == input.block
                &&& event.links == Some(tx_links(input.txid))
            }) by {
                if i < before.len() {
                    assert(now[i] == before[i]);
                }
            }
        }
    }
}

proof fn lemma_receiver_alerts(
    input: RuleInputView,
    threshold: u64,
    facts: Seq<ReceiverView>,
)
    ensures
        forall|i: int|
            0 <= i < receiver_events(input, threshold, facts).len() ==> exists|p: int|
                0 <= p < facts.len() && (#[trigger] facts[p]).total_atomic >= threshold
                    && #[trigger] receiver_events(input, threshold, facts)[i] == receiver_event(
                    input,
                    threshold,
                    facts[p],
                ),
    decreases facts.len(),
{
    if facts.len() > 0 {
        let rest = facts.drop_last();
        lemma_receiver_alerts(input, threshold, rest);
        let before = receiver_events(input, threshold, rest);
        let now = receiver_events(input, threshold, facts);
        assert forall|i: int| 0 <= i < now.len() implies exists|p: int|
            0 <= p < facts.len() && (#[trigger] facts[p]).total_atomic >= threshold
                && #[trigger] now[i] == receiver_event(input, threshold, facts[p]) by {
            if i < before.len() {
                assert(now[i] == before[i]);
                let p = choose|p: int|
                    0 <= p < rest.len() && (#[trigger] rest[p]).total_atomic >= threshold
                        && before[i] == receiver_event(input, threshold, rest[p]);
                assert(facts[p] == rest[p]);
            } else {
                assert(facts[facts.len() - 1] == facts.last());
            }
        }
    }
}

proof fn lemma_sum_of_facts(slots: Seq<Slot>)
    ensures
        sum(
            slot_facts(slots).map_values(|fact: OutputFactView| fact.amount_atomic as nat),
        ) == sum(amounts(slots)),
    decreases slots.len(),
{
    let amount = |fact: OutputFactView| fact.amount_atomic as nat;
    if slots.len() > 0 {
        let rest = slots.drop_last();
        lemma_sum_of_facts(rest);
        assert(amounts(slots).drop_last() =~= amounts(rest));
        if slots.last() is Some {
            let facts = slot_facts(slots);
            assert(facts.map_values(amount).drop_last() =~= slot_facts(rest).map_values(amount));
        }
    }
}

/// A transaction raises one event for each unspent output that reaches the threshold, then one for
/// its total where that does, then those for its receivers. Every event tells the time, the network
/// and the transaction that it was raised for.
pub proof fn transactions_raise_their_alerts(
    cfg: ScanConfig,
    db_height: u64,
    at: Seq<char>,
    tx: Tx,
    events: Seq<SentinelEvent>,
    i: int,
)
    requires
        event_views(events) == tx_events(cfg, db_height, at, tx),
        0 <= i < events.len(),
    ensures
        ({
            let first = output_alerts(cfg, tx);
            let second = total_alerts(cfg, tx);
            let event = events[i];
            &&& events.len() >= first + second
            &&& i < first ==> event.anomaly.rule_id@ == "RULE-OUTPUT-001"@
            &&& first <= i < first + second ==> event.anomaly.rule_id@ == "RULE-TXTOTAL-001"@
            &&& first + second <= i ==> event.anomaly.rule_id@ == "RULE-RECV-001"@
            &&& event.detected_at@ == at
            &&& event.network.chain@ == cfg.chain@
            &&& event.network.network_type@ == cfg.network_type@
            &&& event.network.node_id@ == cfg.node_id@
            &&& event.network.db_height == db_height
            &&& event.block.coinbase_txid@ == tx.txid
            &&& event.block.height == 0
            &&& event.block.tx_count == 1
            &&& event.links matches Some(links) && {
                &&& links.explorer_tx_url matches Some(url) && url@ == "/api/decode/"@ + tx.txid
                &&& links.internal_api_url matches Some(url) && url@ == "/api/get/"@ + tx.txid
            }
        }),
{
    let slots = tx.slots;
    let t = cfg.thresholds;
    let input = rule_input(cfg, db_height, at, tx_facts(tx));
    lemma_output_alerts(input, t.abnormal_output_atomic, slots);
    lemma_receiver_alerts(input, t.receiver_concentration_atomic, input.receiver_aggregates);
    sums_are_of_slots(slots, seq![]);
    assert(event_views(events)[i] == events[i]@);
    let first = output_events(input, t.abnormal_output_atomic, input.outputs);
    let second = total_events(input, t.abnormal_tx_total_atomic);
    let third = receiver_events(
        input,
        t.receiver_concentration_atomic,
        input.receiver_aggregates,
    );
    assert(event_views(events) == first + second + third);
    assert(event_views(events).len() == events.len());
    if i < first.len() {
        assert(events[i]@ == first[i]);
    } else if i < first.len() + second.len() {
        assert(events[i]@ == second[i - first.len()]);
    } else {
        assert(events[i]@ == third[i - first.len() - second.len()]);
    }
}

/// The events of a transaction carry the time at which it was looked at.
pub(crate) proof fn lemma_tx_events_are_stamped(
    cfg: ScanConfig,
    db_height: u64,
    at: Seq<char>,
    tx: Tx,
)
    ensures
        forall|i: int|
            0 <= i < tx_events(cfg, db_height, at, tx).len() ==> (#[trigger] tx_events(
                cfg,
                db_height,
                at,
                tx,
            )[i]).detected_at == at,
{
    let t = cfg.thresholds;
    let input = rule_input(cfg, db_height, at, tx_facts(tx));
    lemma_output_alerts(input, t.abnormal_output_atomic, tx.slots);
    lemma_receiver_alerts(input, t.receiver_concentration_atomic, input.receiver_aggregates);
    let first = output_events(input, t.abnormal_output_atomic, input.outputs);
    let second = total_events(input, t.abnormal_tx_total_atomic);
    let third = receiver_events(
        input,
        t.receiver_concentration_atomic,
        input.receiver_aggregates,
    );
    let all = tx_events(cfg, db_height, at, tx);
    assert(all == first + second + third);
    assert forall|i: int| 0 <= i < all.len() implies (#[trigger] all[i]).detected_at == at by {
        if i < first.len() {
            assert(all[i] == first[i]);
        } else if i < first.len() + second.len() {
            assert(all[i] == second[i - first.len()]);
        } else {
            assert(all[i] == third[i - first.len() - second.len()]);
        }
    }
}

/// Whether a row of evidence is the unspent output at its position in the transaction.
pub open spec fn is_slot_row(row: SentinelOutputEvidence, slots: Seq<Slot>) -> bool {
    &&& row.index < slots.len()
    &&& slots[row.index as int] matches Some((amount, key)) && row.address@ == key_text(key)
        && row.amount_atomic == amount && row.amount_display@ == coin_text(amount)
}

proof fn lemma_output_alerts_in_order(input: RuleInputView, threshold: u64, slots: Seq<Slot>)
    requires
        slots.len() <= u32::MAX + 1,
    ensures
        forall|i: int|
            0 <= i < output_events(input, threshold, slot_facts(slots)).len() ==> exists|p: int|
                0 <= p < slot_facts(slots).len() && (#[trigger] slot_facts(slots)[p]).amount_atomic
                    >= threshold && slot_facts(slots)[p].index < slots.len()
                    && #[trigger] output_events(input, threshold, slot_facts(slots))[i]
                    == output_event(input, threshold, slot_facts(slots)[p]),
        forall|i: int, j: int|
            0 <= i < j < output_events(input, threshold, slot_facts(slots)).len() ==> ((
            #[trigger] output_events(
                input,
                threshold,
                slot_facts(slots),
            )[i]).evidence.coinbase_outputs[0]).index < ((#[trigger] output_events(
                input,
                threshold,
                slot_facts(slots),
            )[j]).evidence.coinbase_outputs[0]).index,
    decreases slots.len(),
{
    if slots.len() > 0 {
        let rest = slots.drop_last();
        lemma_output_alerts_in_order(input, threshold, rest);
        let facts = slot_facts(slots);
        let old_facts = slot_facts(rest);
        let before = output_events(input, threshold, old_facts);
        let now = output_events(input, threshold, facts);
        if slots.last() is Some {
            assert(facts.drop_last() =~= old_facts);
            assert(facts[facts.len() - 1] == facts.last());
        }
        assert forall|i: int| 0 <= i < before.len() implies now[i] == #[trigger] before[i] by {}
        assert forall|p: int| 0 <= p < old_facts.len() implies facts[p]
            == #[trigger] old_facts[p] by {}
        assert forall|i: int| 0 <= i < now.len() implies exists|p: int|
            0 <= p < facts.len() && (#[trigger] facts[p]).amount_atomic >= threshold
                && facts[p].index < slots.len() && #[trigger] now[i] == output_event(
                input,
                threshold,
                facts[p],
            ) by {
            if i < before.len() {
                assert(now[i] == before[i]);
                let p = choose|p: int|
                    0 <= p < old_facts.len() && (#[trigger] old_facts[p]).amount_atomic >= threshold
                        && old_facts[p].index < rest.len() && before[i] == output_event(
                        input,
                        threshold,
                        old_facts[p],
                    );
                assert(facts[p] == old_facts[p]);
            }
        }
        assert forall|i: int, j: int| 0 <= i < j < now.len() implies ((
        #[trigger] now[i]).evidence.coinbase_outputs[0]).index < ((
        #[trigger] now[j]).evidence.coinbase_outputs[0]).index by {
            assert(now[i] == before[i]);
            if j < before.len() {
                assert(now[j] == before[j]);
            } else {
                let p = choose|p: int|
                    0 <= p < old_facts.len() && (#[trigger] old_facts[p]).amount_atomic >= threshold
                        && old_facts[p].index < rest.len() && before[i] == output_event(
                        input,
                        threshold,
                        old_facts[p],
                    );
                assert(before[i].evidence.coinbase_outputs[0].index == old_facts[p].index);
            }
        }
    }
}

/// The events on single outputs name the outputs that reach the threshold, each by its own position
/// and in ascending order, and say by how much it exceeds the threshold.
pub proof fn output_alerts_name_the_outputs(
    cfg: ScanConfig,
    db_height: u64,
    at: Seq<char>,
    tx: Tx,
    events: Seq<SentinelEvent>,
    i: int,
    j: int,
)
    requires
        event_views(events) == tx_events(cfg, db_height, at, tx),
        tx.slots.len() <= u32::MAX + 1,
        0 <= i <= j < output_alerts(cfg, tx),
    ensures
        j < events.len(),
        ({
            let row = events[i].evidence.coinbase_outputs@[0];
            let threshold = cfg.thresholds.abnormal_output_atomic;
            &&& events[i].anomaly.observed.coinbase_output_count == Some(tx.slots.len() as usize)
            &&& events[i].evidence.coinbase_outputs@.len() == 1
            &&& is_slot_row(row, tx.slots)
            &&& row.amount_atomic >= threshold
            &&& exceeds_by(events[i], row.amount_atomic as u64, threshold)
            &&& i < j ==> row.index < events[j].evidence.coinbase_outputs@[0].index
        }),
{
    let slots = tx.slots;
    let threshold = cfg.thresholds.abnormal_output_atomic;
    let input = rule_input(cfg, db_height, at, tx_facts(tx));
    lemma_output_alerts(input, threshold, slots);
    lemma_output_alerts_in_order(input, threshold, slots);
    lemma_facts_are_of_slots(slots);
    let first = output_events(input, threshold, slot_facts(slots));
    let facts = slot_facts(slots);
    let second = total_events(input, cfg.thresholds.abnormal_tx_total_atomic);
    let third = receiver_events(
        input,
        cfg.thresholds.receiver_concentration_atomic,
        input.receiver_aggregates,
    );
    assert(event_views(events) == first + second + third);
    assert(event_views(events).len() == events.len());
    assert(first.len() == output_alerts(cfg, tx));
    assert(events.len() == first.len() + second.len() + third.len());
    assert(event_views(events)[i] == events[i]@);
    assert(event_views(events)[j] == events[j]@);
    assert((first + second + third)[i] == first[i]);
    assert((first + second + third)[j] == first[j]);
    let p = choose|p: int|
        0 <= p < facts.len() && (#[trigger] facts[p]).amount_atomic >= threshold && facts[p].index
            < slots.len() && first[i] == output_event(input, threshold, facts[p]);
    let q = choose|q: int|
        0 <= q < facts.len() && (#[trigger] facts[q]).amount_atomic >= threshold && facts[q].index
            < slots.len() && first[j] == output_event(input, threshold, facts[q]);
    let rows = events[i].evidence.coinbase_outputs@;
    let others = events[j].evidence.coinbase_outputs@;
    assert(output_evidence(rows) == events[i]@.evidence.coinbase_outputs);
    assert(output_evidence(rows).len() == rows.len());
    assert(output_evidence(rows)[0] == rows[0]@);
    assert(output_evidence(others) == events[j]@.evidence.coinbase_outputs);
    assert(output_evidence(others).len() == others.len());
    assert(output_evidence(others)[0] == others[0]@);
}

/// The event on the total of a transaction accounts for all of it: its evidence names every unspent
/// output once, by its position, in ascending order, and the amounts in it add up to the total.
pub proof fn total_alerts_account_for_the_transaction(
    cfg: ScanConfig,
    db_height: u64,
    at: Seq<char>,
    tx: Tx,
    events: Seq<SentinelEvent>,
)
    requires
        event_views(events) == tx_events(cfg, db_height, at, tx),
        total_alerts(cfg, tx) == 1,
        tx.slots.len() <= u32::MAX + 1,
        tx.slots.len() <= usize::MAX,
    ensures
        output_alerts(cfg, tx) < events.len(),
        ({
            let event = events[output_alerts(cfg, tx) as int];
            let rows = event.evidence.coinbase_outputs@;
            &&& exceeds_by(
                event,
                held(sum(amounts(tx.slots))) as u64,
                cfg.thresholds.abnormal_tx_total_atomic,
            )
            &&& event.anomaly.observed.coinbase_output_count == Some(tx.slots.len() as usize)
            &&& json_fields(event.anomaly.observed.extra) == map![
                "txid"@ => Field::Text(tx.txid),
                "tx_total_unspent_atomic"@ => Field::Number(held(sum(amounts(tx.slots))) as u64),
                "unspent_count"@ => Field::Number(tx.slots.filter(is_unspent()).len() as u64),
                "spent_count"@ => Field::Number(tx.slots.filter(is_spent()).len() as u64),
            ]
            &&& rows.len() == tx.slots.filter(is_unspent()).len()
            &&& sum(
                rows.map_values(|row: SentinelOutputEvidence| row.amount_atomic as nat),
            ) == sum(amounts(tx.slots))
            &&& forall|p: int| 0 <= p < rows.len() ==> is_slot_row(#[trigger] rows[p], tx.slots)
            &&& forall|p: int, q: int|
                0 <= p < q < rows.len() ==> (#[trigger] rows[p]).index < (#[trigger] rows[q]).index
        }),
{
    let slots = tx.slots;
    let t = cfg.thresholds;
    let input = rule_input(cfg, db_height, at, tx_facts(tx));
    lemma_output_alerts(input, t.abnormal_output_atomic, slots);
    lemma_facts_are_of_slots(slots);
    lemma_sum_of_facts(slots);
    counts_are_of_slots(slots, seq![]);
    slots_are_spent_or_unspent(slots);
    sums_are_of_slots(slots, seq![]);
    let first = output_events(input, t.abnormal_output_atomic, input.outputs);
    assert(event_views(events).len() == events.len());
    let i = first.len() as int;
    assert(event_views(events)[i] == events[i]@);
    assert(events[i]@ == total_event(input, t.abnormal_tx_total_atomic));
    let rows = events[i].evidence.coinbase_outputs@;
    let facts = slot_facts(slots);
    assert(output_evidence(rows) == events[i]@.evidence.coinbase_outputs);
    assert(output_evidence(rows).len() == rows.len());
    assert forall|p: int| 0 <= p < rows.len() implies ({
        &&& (#[trigger] rows[p]).index == facts[p].index
        &&& rows[p].address@ == facts[p].address
        &&& rows[p].amount_atomic == facts[p].amount_atomic
        &&& rows[p].amount_display@ == facts[p].amount_display
    }) by {
        assert(output_evidence(rows)[p] == rows[p]@);
    }
    assert(rows.map_values(|row: SentinelOutputEvidence| row.amount_atomic as nat)
        =~= facts.map_values(|fact: OutputFactView| fact.amount_atomic as nat));
    assert forall|p: int| 0 <= p < rows.len() implies is_slot_row(#[trigger] rows[p], slots) by {
        assert(facts[p].index == rows[p].index);
    }
    assert forall|p: int, q: int| 0 <= p < q < rows.len() implies (#[trigger] rows[p]).index < (
    #[trigger] rows[q]).index by {
        assert(facts[p].index < facts[q].index);
    }
}

/// A receiver that gets at least the threshold in a transaction is named by an event of it, with
/// what it gets; and every event on a receiver names one that does.
pub proof fn rich_receivers_are_named(
    cfg: ScanConfig,
    db_height: u64,
    at: Seq<char>,
    tx: Tx,
    events: Seq<SentinelEvent>,
    key: Seq<u8>,
)
    requires
        event_views(events) == tx_events(cfg, db_height, at, tx),
        tx.slots.len() <= usize::MAX,
    ensures
        tx.slots.filter(is_of(key)).len() > 0 && receipts(tx, key)
            >= cfg.thresholds.receiver_concentration_atomic ==> exists|i: int|
            0 <= i < events.len() && names_receiver(#[trigger] events[i], cfg, tx, key),
        forall|i: int|
            output_alerts(cfg, tx) + total_alerts(cfg, tx) <= i < events.len()
                ==> names_some_receiver(#[trigger] events[i], cfg, tx),
{
    let slots = tx.slots;
    let t = cfg.thresholds;
    let threshold = t.receiver_concentration_atomic;
    let input = rule_input(cfg, db_height, at, tx_facts(tx));
    let facts = input.receiver_aggregates;
    let totals = wallet_totals(slots);
    let order = ranking(totals);
    lemma_output_alerts(input, t.abnormal_output_atomic, slots);
    sums_are_of_slots(slots, key);
    counts_are_of_slots(slots, key);
    ranking_ranks(totals);
    wallets_are_the_receivers(slots);
    lemma_receiver_alerts(input, threshold, facts);
    let first = output_events(input, t.abnormal_output_atomic, input.outputs);
    let second = total_events(input, t.abnormal_tx_total_atomic);
    let third = receiver_events(input, threshold, facts);
    let n = (first.len() + second.len()) as int;
    assert(event_views(events) == first + second + third);
    assert(event_views(events).len() == events.len());
    assert(n == output_alerts(cfg, tx) + total_alerts(cfg, tx));
    if slots.filter(is_of(key)).len() > 0 && receipts(tx, key) >= threshold {
        assert(wallets(slots).contains(key));
        let place = choose|place: int|
            0 <= place < wallets(slots).len() && wallets(slots)[place] == key;
        assert(order.contains(place));
        let p = choose|p: int| 0 <= p < order.len() && order[p] == place;
        let fact = facts[p];
        assert(fact == receiver_at(slots, place));
        assert(facts.contains(fact));
        lemma_receiver_event_is_there(input, threshold, facts, fact);
        let q = choose|q: int|
            0 <= q < third.len() && third[q] == receiver_event(input, threshold, fact);
        assert(event_views(events)[n + q] == third[q]);
        assert(events[n + q]@ == third[q]);
        assert(names_receiver(events[n + q], cfg, tx, key));
    }
    assert forall|i: int|
        output_alerts(cfg, tx) + total_alerts(cfg, tx) <= i
            < events.len() implies names_some_receiver(#[trigger] events[i], cfg, tx) by {
        assert(event_views(events)[i] == events[i]@);
        assert(events[i]@ == third[i - n]);
        let p = choose|p: int|
            0 <= p < facts.len() && (#[trigger] facts[p]).total_atomic >= threshold && third[i - n]
                == receiver_event(input, threshold, facts[p]);
        let k = wallets(slots)[order[p]];
        assert(wallets(slots).contains(k));
        sums_are_of_slots(slots, k);
        counts_are_of_slots(slots, k);
        assert(facts[p] == receiver_at(slots, order[p]));
        assert(names_receiver(events[i], cfg, tx, k));
    }
}

/// Whether an event names a receiver of the transaction, and what it gets in it.
pub open spec fn names_some_receiver(event: SentinelEvent, cfg: ScanConfig, tx: Tx) -> bool {
    exists|key: Seq<u8>|
        #[trigger] names_receiver(event, cfg, tx, key) && tx.slots.filter(is_of(key)).len() > 0
}

/// Whether an event names a receiver, what it gets in the transaction, and in how many outputs.
pub open spec fn names_receiver(event: SentinelEvent, cfg: ScanConfig, tx: Tx, key: Seq<u8>) -> bool {
    let count = tx.slots.filter(is_of(key)).len();
    &&& json_fields(event.anomaly.observed.extra) == map![
        "txid"@ => Field::Text(tx.txid),
        "receiver"@ => Field::Text(key_text(key)),
        "receiver_total_atomic"@ => Field::Number(receipts(tx, key) as u64),
        "receiver_output_count"@ => Field::Number(count as u64),
    ]
    &&& event.anomaly.observed.coinbase_output_count == Some(count as usize)
    &&& exceeds_by(
        event,
        receipts(tx, key) as u64,
        cfg.thresholds.receiver_concentration_atomic,
    )
}

/// The outputs to an address among those known of the slots are the unspent outputs of its key.
proof fn lemma_evidence_is_of_slots(slots: Seq<Slot>, key: Seq<u8>)
    requires
        whole_keys(slots),
        key.len() == KEY_BYTES,
        slots.len() <= u32::MAX + 1,
    ensures
        ({
            let rows = evidence_for(slot_facts(slots), key_text(key));
            &&& rows.len() == slots.filter(is_of(key)).len()
            &&& forall|p: int|
                0 <= p < rows.len() ==> {
                    let row = #[trigger] rows[p];
                    &&& row.index < slots.len()
                    &&& slots[row.index as int] matches Some((amount, receiver)) && receiver == key
                        && row.amount_atomic == amount && row.address == key_text(key)
                        && row.amount_display == coin_text(amount)
                }
            &&& forall|p: int, q: int|
                0 <= p < q < rows.len() ==> (#[trigger] rows[p]).index < (#[trigger] rows[q]).index
        }),
    decreases slots.len(),
{
    reveal(Seq::filter);
    if slots.len() > 0 {
        let rest = slots.drop_last();
        assert(whole_keys(rest)) by {
            assert forall|i: int| 0 <= i < rest.len() implies match #[trigger] rest[i] {
                Some((_, k)) => k.len() == KEY_BYTES,
                None => true,
            } by {
                assert(rest[i] == slots[i]);
            }
        }
        lemma_evidence_is_of_slots(rest, key);
        let before = evidence_for(slot_facts(rest), key_text(key));
        let now = evidence_for(slot_facts(slots), key_text(key));
        if let Some((_, k)) = slots.last() {
            assert(slots[slots.len() - 1] == slots.last());
            assert(slot_facts(slots).drop_last() =~= slot_facts(rest));
            if key_text(k) == key_text(key) {
                key_text_is_injective(k, key);
            }
        }
        assert forall|p: int| 0 <= p < before.len() implies now[p] == #[trigger] before[p] by {}
        assert forall|p: int| 0 <= p < now.len() implies ({
            let row = #[trigger] now[p];
            &&& row.index < slots.len()
            &&& slots[row.index as int] matches Some((amount, receiver)) && receiver == key
                && row.amount_atomic == amount && row.address == key_text(key)
                && row.amount_display == coin_text(amount)
        }) by {
            if p < before.len() {
                assert(now[p] == before[p]);
                assert(rest[before[p].index as int] == slots[before[p].index as int]);
            }
        }
        assert forall|p: int, q: int| 0 <= p < q < now.len() implies (#[trigger] now[p]).index < (
        #[trigger] now[q]).index by {
            assert(now[p] == before[p]);
            if q < before.len() {
                assert(now[q] == before[q]);
            }
        }
    }
}

/// The evidence of an event that names a receiver holds the unspent outputs of the transaction to
/// that receiver, all of them and no others, in ascending order.
pub proof fn receiver_alerts_account_for_the_receiver(
    cfg: ScanConfig,
    db_height: u64,
    at: Seq<char>,
    tx: Tx,
    events: Seq<SentinelEvent>,
    i: int,
    key: Seq<u8>,
)
    requires
        event_views(events) == tx_events(cfg, db_height, at, tx),
        whole_keys(tx.slots),
        key.len() == KEY_BYTES,
        tx.slots.len() <= u32::MAX + 1,
        output_alerts(cfg, tx) + total_alerts(cfg, tx) <= i < events.len(),
        names_receiver(events[i], cfg, tx, key),
    ensures
        ({
            let rows = events[i].evidence.coinbase_outputs@;
            &&& rows.len() == tx.slots.filter(is_of(key)).len()
            &&& forall|p: int|
                0 <= p < rows.len() ==> is_slot_row(#[trigger] rows[p], tx.slots) && is_of(key)(
                    tx.slots[rows[p].index as int],
                )
            &&& forall|p: int, q: int|
                0 <= p < q < rows.len() ==> (#[trigger] rows[p]).index < (#[trigger] rows[q]).index
        }),
{
    let slots = tx.slots;
    let t = cfg.thresholds;
    let threshold = t.receiver_concentration_atomic;
    let input = rule_input(cfg, db_height, at, tx_facts(tx));
    let facts = input.receiver_aggregates;
    lemma_output_alerts(input, t.abnormal_output_atomic, slots);
    sums_are_of_slots(slots, key);
    lemma_receiver_alerts(input, threshold, facts);
    lemma_evidence_is_of_slots(slots, key);
    let first = output_events(input, t.abnormal_output_atomic, input.outputs);
    let second = total_events(input, t.abnormal_tx_total_atomic);
    let third = receiver_events(input, threshold, facts);
    let n = (first.len() + second.len()) as int;
    assert(event_views(events) == first + second + third);
    assert(event_views(events).len() == events.len());
    assert(event_views(events)[i] == events[i]@);
    assert(events[i]@ == third[i - n]);
    let p = choose|p: int|
        0 <= p < facts.len() && (#[trigger] facts[p]).total_atomic >= threshold && third[i - n]
            == receiver_event(input, threshold, facts[p]);
    let address = facts[p].address;
    assert(address == key_text(key)) by {
        lemma_receiver_field(
            json_fields(events[i].anomaly.observed.extra),
            tx.txid,
            address,
            facts[p],
            key_text(key),
            receipts(tx, key) as u64,
            slots.filter(is_of(key)).len() as u64,
        );
    }
    let rows = events[i].evidence.coinbase_outputs@;
    let said = evidence_for(slot_facts(slots), key_text(key));
    assert(output_evidence(rows) == said);
    assert(output_evidence(rows).len() == rows.len());
    assert forall|q: int| 0 <= q < rows.len() implies (#[trigger] rows[q])@ == said[q] by {
        assert(output_evidence(rows)[q] == rows[q]@);
    }
    assert forall|q: int| 0 <= q < rows.len() implies is_slot_row(#[trigger] rows[q], slots)
        && is_of(key)(slots[rows[q].index as int]) by {
        assert(rows[q]@ == said[q]);
    }
    assert forall|q: int, r: int| 0 <= q < r < rows.len() implies (#[trigger] rows[q]).index < (
    #[trigger] rows[r]).index by {
        assert(rows[q]@ == said[q] && rows[r]@ == said[r]);
    }
}

/// Two ways of saying what was observed of a receiver agree on its address.
proof fn lemma_receiver_field(
    said: Map<Seq<char>, Field>,
    txid: Seq<char>,
    address: Seq<char>,
    fact: ReceiverView,
    other: Seq<char>,
    total: u64,
    count: u64,
)
    requires
        said == map![
            "txid"@ => Field::Text(txid),
            "receiver"@ => Field::Text(address),
            "receiver_total_atomic"@ => Field::Number(fact.total_atomic),
            "receiver_output_count"@ => Field::Number(fact.output_count as u64),
        ],
        said == map![
            "txid"@ => Field::Text(txid),
            "receiver"@ => Field::Text(other),
            "receiver_total_atomic"@ => Field::Number(total),
            "receiver_output_count"@ => Field::Number(count),
        ],
    ensures
        address == other,
{
    reveal_strlit("receiver");
    reveal_strlit("receiver_total_atomic");
    reveal_strlit("receiver_output_count");
    assert("receiver"@.len() == 8);
    assert("receiver_total_atomic"@.len() == 21);
    assert("receiver_output_count"@.len() == 21);
    assert(said["receiver"@] == Field::Text(address));
    assert(said["receiver"@] == Field::Text(other));
}

} // verus!
