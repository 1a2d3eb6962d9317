//! The anomaly rules: what they look at, and the events that they raise.

use vstd::prelude::*;
use vstd::string::*;

use crate::amounts::{Ratio, ATOMIC_PER_COIN};
use crate::events::{
    output_evidence, text_in, AmountView, AnomalyView, BlockView, DeltaView, EventView,
    EvidenceView, ImpactView, LinksView, NetworkView, ObservedView, OutputEvidenceView,
    SentinelAmountSummary, SentinelAnomaly, SentinelBlockContext, SentinelDeltaSummary,
    SentinelDisposition, SentinelEvent, SentinelEvidence, SentinelImpact, SentinelLinks,
    SentinelNetworkContext, SentinelObservedSummary, SentinelOutputEvidence,
    EVENT_TYPE_ABNORMAL_OUTPUT, EVENT_TYPE_SUPPLY_JUMP, RULE_OUTPUT_001, SCHEMA_VERSION,
    SEVERITY_CRITICAL, SEVERITY_HIGH, SEVERITY_MEDIUM, STATUS_OPEN,
};
use crate::index::texts;
use crate::json::{json_object, no_fields, set_number, set_text, Field};
use crate::keys::{names_hold_no_other, names_tx};
use crate::text::{
    ascii_lowercase, decimal, decimal_reads_back, decimal_text, decimal_value, digits_add_up,
    digits_are_kept, digits_in, fixed_digits, fixed_digits_read_back, fixed_text, lacks,
    lower_text, marks_hold_no_digit, numerals_are_digits, numerals_are_positional, split_is_unique,
};

verus! {

/// The rule on the total of a transaction.
pub const RULE_TXTOTAL_001: &'static str = "RULE-TXTOTAL-001";

/// The rule on what one receiver gets in a transaction.
pub const RULE_RECV_001: &'static str = "RULE-RECV-001";

/// The event type of the rule on receivers.
pub const EVENT_TYPE_RECEIVER_SPIKE: &'static str = "receiver_concentration_spike";

// ---------------------------------------------------------------------------
// Facts
// ---------------------------------------------------------------------------

/// An unspent output of a transaction.
#[derive(Debug)]
pub struct TxOutputFact {
    pub index: u32,
    pub address: String,
    pub amount_atomic: u64,
    pub amount_display: String,
}

/// What is known of an unspent output.
pub struct OutputFactView {
    pub index: u32,
    pub address: Seq<char>,
    pub amount_atomic: u64,
    pub amount_display: Seq<char>,
}

impl View for TxOutputFact {
    type V = OutputFactView;

    open spec fn view(&self) -> OutputFactView {
        OutputFactView {
            index: self.index,
            address: self.address@,
            amount_atomic: self.amount_atomic,
            amount_display: self.amount_display@,
        }
    }
}

impl Clone for TxOutputFact {
    fn clone(&self) -> (r: Self)
        ensures
            r@ == self@,
    {
        TxOutputFact {
            index: self.index,
            address: self.address.clone(),
            amount_atomic: self.amount_atomic,
            amount_display: self.amount_display.clone(),
        }
    }
}

/// What is known of unspent outputs.
pub open spec fn output_facts(facts: Seq<TxOutputFact>) -> Seq<OutputFactView> {
    Seq::new(facts.len(), |i: int| facts[i]@)
}

/// What one receiver gets in a transaction.
#[derive(Debug)]
pub struct ReceiverAggregateFact {
    pub address: String,
    pub output_count: usize,
    pub total_atomic: u64,
    pub total_display: String,
}

/// What is known of a receiver.
pub struct ReceiverView {
    pub address: Seq<char>,
    pub output_count: usize,
    pub total_atomic: u64,
    pub total_display: Seq<char>,
}

impl View for ReceiverAggregateFact {
    type V = ReceiverView;

    open spec fn view(&self) -> ReceiverView {
        ReceiverView {
            address: self.address@,
            output_count: self.output_count,
            total_atomic: self.total_atomic,
            total_display: self.total_display@,
        }
    }
}

impl Clone for ReceiverAggregateFact {
    fn clone(&self) -> (r: Self)
        ensures
            r@ == self@,
    {
        ReceiverAggregateFact {
            address: self.address.clone(),
            output_count: self.output_count,
            total_atomic: self.total_atomic,
            total_display: self.total_display.clone(),
        }
    }
}

/// What is known of receivers.
pub open spec fn receiver_facts(facts: Seq<ReceiverAggregateFact>) -> Seq<ReceiverView> {
    Seq::new(facts.len(), |i: int| facts[i]@)
}

/// What the rules look at. The store knows no blocks: the block context is anchored in the
/// transaction.
#[derive(Debug, Clone)]
pub struct TxRuleInput {
    pub detected_at: String,
    pub network: SentinelNetworkContext,
    pub block: SentinelBlockContext,
    pub txid: String,
    pub output_count: usize,
    pub unspent_count: usize,
    pub spent_count: usize,
    pub tx_total_unspent_atomic: u64,
    pub largest_output_atomic: u64,
    pub largest_output_index: Option<u32>,
    pub largest_output_address: Option<String>,
    pub outputs: Vec<TxOutputFact>,
    pub receiver_aggregates: Vec<ReceiverAggregateFact>,
}

/// What the rules are told.
pub struct RuleInputView {
    pub detected_at: Seq<char>,
    pub network: NetworkView,
    pub block: BlockView,
    pub txid: Seq<char>,
    pub output_count: usize,
    pub unspent_count: usize,
    pub spent_count: usize,
    pub tx_total_unspent_atomic: u64,
    pub largest_output_atomic: u64,
    pub largest_output_index: Option<u32>,
    pub largest_output_address: Option<Seq<char>>,
    pub outputs: Seq<OutputFactView>,
    pub receiver_aggregates: Seq<ReceiverView>,
}

impl View for TxRuleInput {
    type V = RuleInputView;

    open spec fn view(&self) -> RuleInputView {
        RuleInputView {
            detected_at: self.detected_at@,
            network: self.network@,
            block: self.block@,
            txid: self.txid@,
            output_count: self.output_count,
            unspent_count: self.unspent_count,
            spent_count: self.spent_count,
            tx_total_unspent_atomic: self.tx_total_unspent_atomic,
            largest_output_atomic: self.largest_output_atomic,
            largest_output_index: self.largest_output_index,
            largest_output_address: text_in(self.largest_output_address),
            outputs: output_facts(self.outputs@),
            receiver_aggregates: receiver_facts(self.receiver_aggregates@),
        }
    }
}

/// From which amounts on the rules raise events.
#[derive(Debug, Clone, Copy)]
pub struct TxRuleThresholds {
    pub abnormal_output_atomic: u64,
    pub abnormal_tx_total_atomic: u64,
    pub receiver_concentration_atomic: u64,
}

/// The usual thresholds: a million, five million and a million coins.
pub open spec fn usual_thresholds() -> TxRuleThresholds {
    TxRuleThresholds {
        abnormal_output_atomic: (1_000_000 * ATOMIC_PER_COIN) as u64,
        abnormal_tx_total_atomic: (5_000_000 * ATOMIC_PER_COIN) as u64,
        receiver_concentration_atomic: (1_000_000 * ATOMIC_PER_COIN) as u64,
    }
}

impl Default for TxRuleThresholds {
    fn default() -> (r: Self)
        ensures
            r == usual_thresholds(),
    {
        TxRuleThresholds {
            abnormal_output_atomic: 1_000_000 * ATOMIC_PER_COIN,
            abnormal_tx_total_atomic: 5_000_000 * ATOMIC_PER_COIN,
            receiver_concentration_atomic: 1_000_000 * ATOMIC_PER_COIN,
        }
    }
}

// ---------------------------------------------------------------------------
// Matches
// ---------------------------------------------------------------------------

/// An event that a rule raised.
#[derive(Debug)]
pub struct RuleMatch {
    pub event: SentinelEvent,
}

impl Clone for RuleMatch {
    fn clone(&self) -> (r: Self)
        ensures
            r.event@ == self.event@,
    {
        RuleMatch { event: self.event.clone() }
    }
}

/// What the events of matches say.
pub open spec fn match_views(matches: Seq<RuleMatch>) -> Seq<EventView> {
    Seq::new(matches.len(), |i: int| matches[i].event@)
}

/// All events that the rules raised.
#[derive(Debug, Clone)]
pub struct RuleSetResult {
    pub matches: Vec<RuleMatch>,
}

impl Default for RuleSetResult {
    fn default() -> (r: Self)
        ensures
            match_views(r.matches@) == Seq::<EventView>::empty(),
    {
        let r = RuleSetResult { matches: Vec::new() };
        assert(match_views(r.matches@) =~= Seq::<EventView>::empty());
        r
    }
}

impl RuleSetResult {
    /// Adds an event.
    pub fn push(&mut self, rule_match: RuleMatch)
        ensures
            match_views(final(self).matches@) == match_views(old(self).matches@).push(
                rule_match.event@,
            ),
    {
        self.matches.push(rule_match);
        assert(match_views(self.matches@) =~= match_views(old(self).matches@).push(
            rule_match.event@,
        ));
    }

    /// Whether no rule raised an event.
    pub fn is_empty(&self) -> (r: bool)
        ensures
            r == (match_views(self.matches@).len() == 0),
    {
        self.matches.len() == 0
    }
}

// ---------------------------------------------------------------------------
// What the events say
// ---------------------------------------------------------------------------

/// Nothing is expected beyond these fields.
pub open spec fn expecting(extra: Map<Seq<char>, Field>) -> AmountView {
    AmountView { subsidy_atomic: None, fees_atomic: None, allowed_coinbase_atomic: None, extra }
}

/// What was observed: so many outputs, and these fields.
pub open spec fn observing(outputs: usize, extra: Map<Seq<char>, Field>) -> ObservedView {
    ObservedView { coinbase_total_atomic: None, coinbase_output_count: Some(outputs), extra }
}

/// How far an amount exceeds its threshold.
pub open spec fn exceeding(amount: u64, threshold: u64) -> DeltaView {
    DeltaView {
        excess_atomic: Some((amount - threshold) as u128),
        reward_ratio: Some(Ratio { part: amount, whole: threshold }),
        extra: no_fields(),
    }
}

/// An output as evidence.
pub open spec fn fact_evidence(fact: OutputFactView) -> OutputEvidenceView {
    OutputEvidenceView {
        index: fact.index,
        address: fact.address,
        amount_atomic: fact.amount_atomic as u128,
        amount_display: fact.amount_display,
    }
}

/// All outputs as evidence.
pub open spec fn all_evidence(facts: Seq<OutputFactView>) -> Seq<OutputEvidenceView> {
    Seq::new(facts.len(), |i: int| fact_evidence(facts[i]))
}

/// The outputs to one address as evidence, in their order.
pub open spec fn evidence_for(facts: Seq<OutputFactView>, address: Seq<char>) -> Seq<
    OutputEvidenceView,
>
    decreases facts.len(),
{
    if facts.len() == 0 {
        seq![]
    } else {
        let before = evidence_for(facts.drop_last(), address);
        if facts.last().address == address {
            before.push(fact_evidence(facts.last()))
        } else {
            before
        }
    }
}

/// The risks of an event; that for an exchange is always there.
pub open spec fn risks(consensus: bool) -> ImpactView {
    ImpactView {
        estimated_supply_increase_atomic: None,
        estimated_supply_increase_display: None,
        potential_exchange_risk: Some(true),
        potential_consensus_risk: Some(consensus),
        extra: no_fields(),
    }
}

/// What is to be done: a manual review, and a page or not; nothing is frozen.
pub open spec fn review(page: bool) -> SentinelDisposition {
    SentinelDisposition {
        should_page: Some(page),
        should_freeze_exchange: Some(false),
        should_freeze_pool: Some(false),
        requires_manual_review: Some(true),
    }
}

/// Where to look at a transaction.
pub open spec fn tx_links(txid: Seq<char>) -> LinksView {
    LinksView {
        explorer_block_url: None,
        explorer_tx_url: Some("/api/decode/"@ + txid),
        internal_api_url: Some("/api/get/"@ + txid),
    }
}

/// The id of an event of the rule on single outputs.
pub open spec fn output_event_id(txid: Seq<char>, index: u32) -> Seq<char> {
    "sentinel-"@ + txid + "-out-"@ + decimal(index as nat) + "-"@ + lower_text(RULE_OUTPUT_001@)
}

/// The id of an event of the rule on the total.
pub open spec fn total_event_id(txid: Seq<char>) -> Seq<char> {
    "sentinel-"@ + txid + "-"@ + lower_text(RULE_TXTOTAL_001@)
}

/// The id of an event of the rule on receivers.
pub open spec fn receiver_event_id(txid: Seq<char>, address: Seq<char>) -> Seq<char> {
    "sentinel-"@ + txid + "-recv-"@ + address + "-"@ + lower_text(RULE_RECV_001@)
}

/// The event for an output that reaches the threshold.
pub open spec fn output_event(input: RuleInputView, threshold: u64, fact: OutputFactView) -> EventView {
    EventView {
        schema_version: SCHEMA_VERSION@,
        event_id: output_event_id(input.txid, fact.index),
        event_type: EVENT_TYPE_ABNORMAL_OUTPUT@,
        severity: SEVERITY_HIGH@,
        status: STATUS_OPEN@,
        detected_at: input.detected_at,
        network: input.network,
        block: input.block,
        anomaly: AnomalyView {
            rule_id: RULE_OUTPUT_001@,
            rule_name: "single output exceeds abnormal output threshold"@,
            category: "tx-anomaly"@,
            confidence_percent: 98,
            expected: expecting(no_fields()),
            observed: observing(
                input.output_count,
                no_fields().insert("txid"@, Field::Text(input.txid)).insert(
                    "output_index"@,
                    Field::Number(fact.index as u64),
                ).insert("output_amount_atomic"@, Field::Number(fact.amount_atomic)).insert(
                    "output_address"@,
                    Field::Text(fact.address),
                ),
            ),
            delta: exceeding(fact.amount_atomic, threshold),
        },
        evidence: EvidenceView {
            coinbase_outputs: seq![fact_evidence(fact)],
            flags: seq!["abnormal_output_value"@, "tx_anomaly"@, "review_required"@],
            extra: no_fields(),
        },
        impact: Some(risks(false)),
        disposition: Some(review(true)),
        recommended_actions: seq![
            "inspect_tx_outputs"@,
            "trace_receiver_address"@,
            "review_exchange_flow"@,
        ],
        links: Some(tx_links(input.txid)),
        notes: seq![
            "Detected by RULE-OUTPUT-001"@,
            "Single tx output exceeded configured threshold"@,
        ],
    }
}

/// The events for the outputs that reach the threshold, in their order.
pub open spec fn output_events(
    input: RuleInputView,
    threshold: u64,
    facts: Seq<OutputFactView>,
) -> Seq<EventView>
    decreases facts.len(),
{
    if facts.len() == 0 {
        seq![]
    } else {
        let before = output_events(input, threshold, facts.drop_last());
        if facts.last().amount_atomic >= threshold {
            before.push(output_event(input, threshold, facts.last()))
        } else {
            before
        }
    }
}

/// The event for a total that reaches the threshold.
pub open spec fn total_event(input: RuleInputView, threshold: u64) -> EventView {
    EventView {
        schema_version: SCHEMA_VERSION@,
        event_id: total_event_id(input.txid),
        event_type: EVENT_TYPE_SUPPLY_JUMP@,
        severity: SEVERITY_CRITICAL@,
        status: STATUS_OPEN@,
        detected_at: input.detected_at,
        network: input.network,
        block: input.block,
        anomaly: AnomalyView {
            rule_id: RULE_TXTOTAL_001@,
            rule_name: "tx total unspent value exceeds abnormal tx threshold"@,
            category: "tx-anomaly"@,
            confidence_percent: 99,
            expected: expecting(
                no_fields().insert(
                    "abnormal_tx_total_threshold_atomic"@,
                    Field::Number(threshold),
                ),
            ),
            observed: observing(
                input.output_count,
                no_fields().insert("txid"@, Field::Text(input.txid)).insert(
                    "tx_total_unspent_atomic"@,
                    Field::Number(input.tx_total_unspent_atomic),
                ).insert("unspent_count"@, Field::Number(input.unspent_count as u64)).insert(
                    "spent_count"@,
                    Field::Number(input.spent_count as u64),
                ),
            ),
            delta: exceeding(input.tx_total_unspent_atomic, threshold),
        },
        evidence: EvidenceView {
            coinbase_outputs: all_evidence(input.outputs),
            flags: seq!["abnormal_tx_total"@, "large_value_cluster"@, "review_required"@],
            extra: no_fields(),
        },
        impact: Some(risks(true)),
        disposition: Some(review(true)),
        recommended_actions: seq![
            "inspect_tx_outputs"@,
            "compare_against_expected_supply"@,
            "trace_funds"@,
            "review_consensus_rules"@,
        ],
        links: Some(tx_links(input.txid)),
        notes: seq![
            "Detected by RULE-TXTOTAL-001"@,
            "Single tx entry exceeded configured total value threshold"@,
        ],
    }
}

/// The event for a receiver that reaches the threshold.
pub open spec fn receiver_event(input: RuleInputView, threshold: u64, fact: ReceiverView) -> EventView {
    EventView {
        schema_version: SCHEMA_VERSION@,
        event_id: receiver_event_id(input.txid, fact.address),
        event_type: EVENT_TYPE_RECEIVER_SPIKE@,
        severity: SEVERITY_MEDIUM@,
        status: STATUS_OPEN@,
        detected_at: input.detected_at,
        network: input.network,
        block: input.block,
        anomaly: AnomalyView {
            rule_id: RULE_RECV_001@,
            rule_name: "receiver concentration spike detected within one tx"@,
            category: "receiver-anomaly"@,
            confidence_percent: 96,
            expected: expecting(
                no_fields().insert(
                    "receiver_concentration_threshold_atomic"@,
                    Field::Number(threshold),
                ),
            ),
            observed: observing(
                fact.output_count,
                no_fields().insert("txid"@, Field::Text(input.txid)).insert(
                    "receiver"@,
                    Field::Text(fact.address),
                ).insert("receiver_total_atomic"@, Field::Number(fact.total_atomic)).insert(
                    "receiver_output_count"@,
                    Field::Number(fact.output_count as u64),
                ),
            ),
            delta: exceeding(fact.total_atomic, threshold),
        },
        evidence: EvidenceView {
            coinbase_outputs: evidence_for(input.outputs, fact.address),
            flags: seq![
                "receiver_concentration_spike"@,
                "large_receiver_cluster"@,
                "review_required"@,
            ],
            extra: no_fields(),
        },
        impact: Some(risks(false)),
        disposition: Some(review(false)),
        recommended_actions: seq!["inspect_receiver_cluster"@, "trace_address_activity"@],
        links: Some(tx_links(input.txid)),
        notes: seq![
            "Detected by RULE-RECV-001"@,
            "One receiver accumulated an unusually large share of a tx entry"@,
        ],
    }
}

/// The events for the receivers that reach the threshold, in their order.
pub open spec fn receiver_events(
    input: RuleInputView,
    threshold: u64,
    facts: Seq<ReceiverView>,
) -> Seq<EventView>
    decreases facts.len(),
{
    if facts.len() == 0 {
        seq![]
    } else {
        let before = receiver_events(input, threshold, facts.drop_last());
        if facts.last().total_atomic >= threshold {
            before.push(receiver_event(input, threshold, facts.last()))
        } else {
            before
        }
    }
}

/// The events of the rule on the total: one or none.
pub open spec fn total_events(input: RuleInputView, threshold: u64) -> Seq<EventView> {
    if input.tx_total_unspent_atomic >= threshold {
        seq![total_event(input, threshold)]
    } else {
        seq![]
    }
}

/// All events: first those on outputs, then that on the total, then those on receivers.
pub open spec fn rule_events(input: RuleInputView, thresholds: TxRuleThresholds) -> Seq<EventView> {
    output_events(input, thresholds.abnormal_output_atomic, input.outputs) + total_events(
        input,
        thresholds.abnormal_tx_total_atomic,
    ) + receiver_events(
        input,
        thresholds.receiver_concentration_atomic,
        input.receiver_aggregates,
    )
}

// ---------------------------------------------------------------------------
// Parts of events
// ---------------------------------------------------------------------------

fn two(a: &str, b: &str) -> (r: Vec<String>)
    ensures
        texts(r@) == seq![a@, b@],
{
    let mut r: Vec<String> = Vec::new();
    r.push(a.to_string());
    r.push(b.to_string());
    assert(texts(r@) =~= seq![a@, b@]);
    r
}

fn three(a: &str, b: &str, c: &str) -> (r: Vec<String>)
    ensures
        texts(r@) == seq![a@, b@, c@],
{
    let mut r = two(a, b);
    let ghost before = texts(r@);
    r.push(c.to_string());
    assert(texts(r@) =~= before.push(c@));
    assert(texts(r@) =~= seq![a@, b@, c@]);
    r
}

fn four(a: &str, b: &str, c: &str, d: &str) -> (r: Vec<String>)
    ensures
        texts(r@) == seq![a@, b@, c@, d@],
{
    let mut r = three(a, b, c);
    let ghost before = texts(r@);
    r.push(d.to_string());
    assert(texts(r@) =~= before.push(d@));
    assert(texts(r@) =~= seq![a@, b@, c@, d@]);
    r
}

fn excess_over(amount: u64, threshold: u64) -> (r: SentinelDeltaSummary)
    requires
        amount >= threshold,
    ensures
        r@ == exceeding(amount, threshold),
{
    SentinelDeltaSummary {
        excess_atomic: Some((amount - threshold) as u128),
        reward_ratio: Some(Ratio { part: amount, whole: threshold }),
        extra: json_object(),
    }
}

fn evidence_of(fact: &TxOutputFact) -> (r: SentinelOutputEvidence)
    ensures
        r@ == fact_evidence(fact@),
{
    SentinelOutputEvidence {
        index: fact.index,
        address: fact.address.clone(),
        amount_atomic: fact.amount_atomic as u128,
        amount_display: fact.amount_display.clone(),
    }
}

fn impact_of(consensus: bool) -> (r: SentinelImpact)
    ensures
        r@ == risks(consensus),
{
    SentinelImpact {
        estimated_supply_increase_atomic: None,
        estimated_supply_increase_display: None,
        potential_exchange_risk: Some(true),
        potential_consensus_risk: Some(consensus),
        extra: json_object(),
    }
}

fn disposition_of(page: bool) -> (r: SentinelDisposition)
    ensures
        r == review(page),
{
    SentinelDisposition {
        should_page: Some(page),
        should_freeze_exchange: Some(false),
        should_freeze_pool: Some(false),
        requires_manual_review: Some(true),
    }
}

fn links_to(txid: &str) -> (r: SentinelLinks)
    ensures
        r@ == tx_links(txid@),
{
    let mut decode = "/api/decode/".to_string();
    decode.append(txid);
    let mut get = "/api/get/".to_string();
    get.append(txid);
    SentinelLinks {
        explorer_block_url: None,
        explorer_tx_url: Some(decode),
        internal_api_url: Some(get),
    }
}

// ---------------------------------------------------------------------------
// The rules
// ---------------------------------------------------------------------------

fn match_output(input: &TxRuleInput, threshold: u64, fact: &TxOutputFact) -> (r: RuleMatch)
    requires
        fact.amount_atomic >= threshold,
    ensures
        r.event@ == output_event(input@, threshold, fact@),
{
    let mut event_id = "sentinel-".to_string();
    event_id.append(input.txid.as_str());
    event_id.append("-out-");
    event_id.append(decimal_text(fact.index as u64).as_str());
    event_id.append("-");
    event_id.append(ascii_lowercase(RULE_OUTPUT_001).as_str());
    let mut observed = json_object();
    set_text(&mut observed, "txid", input.txid.as_str());
    set_number(&mut observed, "output_index", fact.index as u64);
    set_number(&mut observed, "output_amount_atomic", fact.amount_atomic);
    set_text(&mut observed, "output_address", fact.address.as_str());
    let anomaly = SentinelAnomaly {
        rule_id: RULE_OUTPUT_001.to_string(),
        rule_name: "single output exceeds abnormal output threshold".to_string(),
        category: "tx-anomaly".to_string(),
        confidence_percent: 98,
        expected: SentinelAmountSummary::default(),
        observed: SentinelObservedSummary {
            coinbase_total_atomic: None,
            coinbase_output_count: Some(input.output_count),
            extra: observed,
        },
        delta: excess_over(fact.amount_atomic, threshold),
    };
    let mut outputs: Vec<SentinelOutputEvidence> = Vec::new();
    outputs.push(evidence_of(fact));
    assert(output_evidence(outputs@) =~= seq![fact_evidence(fact@)]);
    let evidence = SentinelEvidence {
        coinbase_outputs: outputs,
        flags: three("abnormal_output_value", "tx_anomaly", "review_required"),
        extra: json_object(),
    };
    let event = SentinelEvent::new(
        event_id,
        EVENT_TYPE_ABNORMAL_OUTPUT.to_string(),
        SEVERITY_HIGH.to_string(),
        STATUS_OPEN.to_string(),
        input.detected_at.clone(),
        input.network.clone(),
        input.block.clone(),
        anomaly,
        evidence,
    ).with_impact(impact_of(false)).with_disposition(disposition_of(true)).with_links(
        links_to(input.txid.as_str()),
    ).with_actions(
        three("inspect_tx_outputs", "trace_receiver_address", "review_exchange_flow"),
    ).with_notes(
        two("Detected by RULE-OUTPUT-001", "Single tx output exceeded configured threshold"),
    );
    RuleMatch { event }
}

/// The rule on single outputs: an event for every output that reaches the threshold.
pub fn evaluate_abnormal_output_value(input: &TxRuleInput, thresholds: &TxRuleThresholds) -> (r: Vec<
    RuleMatch,
>)
    ensures
        match_views(r@) == output_events(
            input@,
            thresholds.abnormal_output_atomic,
            input@.outputs,
        ),
{
    let threshold: u64 = thresholds.abnormal_output_atomic;
    let mut out: Vec<RuleMatch> = Vec::new();
    let mut i: usize = 0;
    let ghost facts = input@.outputs;
    assert(facts.take(0) =~= seq![]);
    assert(match_views(out@) =~= seq![]);
    while i < input.outputs.len()
        invariant
            i <= input.outputs.len(),
            facts == input@.outputs,
            match_views(out@) == output_events(input@, threshold, facts.take(i as int)),
        decreases input.outputs.len() - i,
    {
        proof {
            assert(facts.take(i + 1).drop_last() =~= facts.take(i as int));
            assert(facts.take(i + 1).last() == input.outputs@[i as int]@);
        }
        if input.outputs[i].amount_atomic >= threshold {
            let ghost before = match_views(out@);
            let found = match_output(input, threshold, &input.outputs[i]);
            let ghost said = found.event@;
            out.push(found);
            assert(match_views(out@) =~= before.push(said));
        }
        i += 1;
    }
    assert(facts.take(i as int) =~= facts);
    out
}

/// The rule on the total: an event where the total of the transaction reaches the threshold.
pub fn evaluate_abnormal_tx_total(input: &TxRuleInput, thresholds: &TxRuleThresholds) -> (r: Option<
    RuleMatch,
>)
    ensures
        match r {
            Some(m) => input.tx_total_unspent_atomic >= thresholds.abnormal_tx_total_atomic
                && m.event@ == total_event(input@, thresholds.abnormal_tx_total_atomic),
            None => input.tx_total_unspent_atomic < thresholds.abnormal_tx_total_atomic,
        },
{
    let threshold: u64 = thresholds.abnormal_tx_total_atomic;
    if input.tx_total_unspent_atomic < threshold {
        return None;
    }
    let mut event_id = "sentinel-".to_string();
    event_id.append(input.txid.as_str());
    event_id.append("-");
    event_id.append(ascii_lowercase(RULE_TXTOTAL_001).as_str());
    let mut expected = json_object();
    set_number(&mut expected, "abnormal_tx_total_threshold_atomic", threshold);
    let mut observed = json_object();
    set_text(&mut observed, "txid", input.txid.as_str());
    set_number(&mut observed, "tx_total_unspent_atomic", input.tx_total_unspent_atomic);
    set_number(&mut observed, "unspent_count", input.unspent_count as u64);
    set_number(&mut observed, "spent_count", input.spent_count as u64);
    let anomaly = SentinelAnomaly {
        rule_id: RULE_TXTOTAL_001.to_string(),
        rule_name: "tx total unspent value exceeds abnormal tx threshold".to_string(),
        category: "tx-anomaly".to_string(),
        confidence_percent: 99,
        expected: SentinelAmountSummary {
            subsidy_atomic: None,
            fees_atomic: None,
            allowed_coinbase_atomic: None,
            extra: expected,
        },
        observed: SentinelObservedSummary {
            coinbase_total_atomic: None,
            coinbase_output_count: Some(input.output_count),
            extra: observed,
        },
        delta: excess_over(input.tx_total_unspent_atomic, threshold),
    };
    let mut outputs: Vec<SentinelOutputEvidence> = Vec::new();
    let mut i: usize = 0;
    let ghost all = all_evidence(input@.outputs);
    assert(output_evidence(outputs@) =~= all.take(0));
    while i < input.outputs.len()
        invariant
            i <= input.outputs.len(),
            all == all_evidence(input@.outputs),
            output_evidence(outputs@) == all.take(i as int),
        decreases input.outputs.len() - i,
    {
        let ghost before = output_evidence(outputs@);
        let row = evidence_of(&input.outputs[i]);
        let ghost said = row@;
        outputs.push(row);
        proof {
            assert(output_evidence(outputs@) =~= before.push(said));
            assert(all.take(i + 1) =~= all.take(i as int).push(all[i as int]));
        }
        i += 1;
    }
    assert(all.take(i as int) =~= all);
    let evidence = SentinelEvidence {
        coinbase_outputs: outputs,
        flags: three("abnormal_tx_total", "large_value_cluster", "review_required"),
        extra: json_object(),
    };
    let event = SentinelEvent::new(
        event_id,
        EVENT_TYPE_SUPPLY_JUMP.to_string(),
        SEVERITY_CRITICAL.to_string(),
        STATUS_OPEN.to_string(),
        input.detected_at.clone(),
        input.network.clone(),
        input.block.clone(),
        anomaly,
        evidence,
    ).with_impact(impact_of(true)).with_disposition(disposition_of(true)).with_links(
        links_to(input.txid.as_str()),
    ).with_actions(
        four(
            "inspect_tx_outputs",
            "compare_against_expected_supply",
            "trace_funds",
            "review_consensus_rules",
        ),
    ).with_notes(
        two(
            "Detected by RULE-TXTOTAL-001",
            "Single tx entry exceeded configured total value threshold",
        ),
    );
    Some(RuleMatch { event })
}

/// The outputs to one address as evidence.
fn evidence_to(facts: &Vec<TxOutputFact>, address: &String) -> (r: Vec<SentinelOutputEvidence>)
    ensures
        output_evidence(r@) == evidence_for(output_facts(facts@), address@),
{
    let mut out: Vec<SentinelOutputEvidence> = Vec::new();
    let mut i: usize = 0;
    let ghost all = output_facts(facts@);
    assert(all.take(0) =~= seq![]);
    assert(output_evidence(out@) =~= seq![]);
    while i < facts.len()
        invariant
            i <= facts.len(),
            all == output_facts(facts@),
            output_evidence(out@) == evidence_for(all.take(i as int), address@),
        decreases facts.len() - i,
    {
        proof {
            assert(all.take(i + 1).drop_last() =~= all.take(i as int));
            assert(all.take(i + 1).last() == facts@[i as int]@);
        }
        if facts[i].address == *address {
            let ghost before = output_evidence(out@);
            let row = evidence_of(&facts[i]);
            let ghost said = row@;
            out.push(row);
            assert(output_evidence(out@) =~= before.push(said));
        }
        i += 1;
    }
    assert(all.take(i as int) =~= all);
    out
}

fn match_receiver(input: &TxRuleInput, threshold: u64, fact: &ReceiverAggregateFact) -> (r: RuleMatch)
    requires
        fact.total_atomic >= threshold,
    ensures
        r.event@ == receiver_event(input@, threshold, fact@),
{
    let mut event_id = "sentinel-".to_string();
    event_id.append(input.txid.as_str());
    event_id.append("-recv-");
    event_id.append(fact.address.as_str());
    event_id.append("-");
    event_id.append(ascii_lowercase(RULE_RECV_001).as_str());
    let mut expected = json_object();
    set_number(&mut expected, "receiver_concentration_threshold_atomic", threshold);
    let mut observed = json_object();
    set_text(&mut observed, "txid", input.txid.as_str());
    set_text(&mut observed, "receiver", fact.address.as_str());
    set_number(&mut observed, "receiver_total_atomic", fact.total_atomic);
    set_number(&mut observed, "receiver_output_count", fact.output_count as u64);
    let anomaly = SentinelAnomaly {
        rule_id: RULE_RECV_001.to_string(),
        rule_name: "receiver concentration spike detected within one tx".to_string(),
        category: "receiver-anomaly".to_string(),
        confidence_percent: 96,
        expected: SentinelAmountSummary {
            subsidy_atomic: None,
            fees_atomic: None,
            allowed_coinbase_atomic: None,
            extra: expected,
        },
        observed: SentinelObservedSummary {
            coinbase_total_atomic: None,
            coinbase_output_count: Some(fact.output_count),
            extra: observed,
        },
        delta: excess_over(fact.total_atomic, threshold),
    };
    let evidence = SentinelEvidence {
        coinbase_outputs: evidence_to(&input.outputs, &fact.address),
        flags: three("receiver_concentration_spike", "large_receiver_cluster", "review_required"),
        extra: json_object(),
    };
    let event = SentinelEvent::new(
        event_id,
        EVENT_TYPE_RECEIVER_SPIKE.to_string(),
        SEVERITY_MEDIUM.to_string(),
        STATUS_OPEN.to_string(),
        input.detected_at.clone(),
        input.network.clone(),
        input.block.clone(),
        anomaly,
        evidence,
    ).with_impact(impact_of(false)).with_disposition(disposition_of(false)).with_links(
        links_to(input.txid.as_str()),
    ).with_actions(two("inspect_receiver_cluster", "trace_address_activity")).with_notes(
        two(
            "Detected by RULE-RECV-001",
            "One receiver accumulated an unusually large share of a tx entry",
        ),
    );
    RuleMatch { event }
}

/// The rule on receivers: an event for every receiver that reaches the threshold.
pub fn evaluate_receiver_concentration(input: &TxRuleInput, thresholds: &TxRuleThresholds) -> (r: Vec<
    RuleMatch,
>)
    ensures
        match_views(r@) == receiver_events(
            input@,
            thresholds.receiver_concentration_atomic,
            input@.receiver_aggregates,
        ),
{
    let threshold: u64 = thresholds.receiver_concentration_atomic;
    let mut out: Vec<RuleMatch> = Vec::new();
    let mut i: usize = 0;
    let ghost facts = input@.receiver_aggregates;
    assert(facts.take(0) =~= seq![]);
    assert(match_views(out@) =~= seq![]);
    while i < input.receiver_aggregates.len()
        invariant
            i <= input.receiver_aggregates.len(),
            facts == input@.receiver_aggregates,
            match_views(out@) == receiver_events(input@, threshold, facts.take(i as int)),
        decreases input.receiver_aggregates.len() - i,
    {
        proof {
            assert(facts.take(i + 1).drop_last() =~= facts.take(i as int));
            assert(facts.take(i + 1).last() == input.receiver_aggregates@[i as int]@);
        }
        if input.receiver_aggregates[i].total_atomic >= threshold {
            let ghost before = match_views(out@);
            let found = match_receiver(input, threshold, &input.receiver_aggregates[i]);
            let ghost said = found.event@;
            out.push(found);
            assert(match_views(out@) =~= before.push(said));
        }
        i += 1;
    }
    assert(facts.take(i as int) =~= facts);
    out
}

/// All rules.
pub fn evaluate_all_tx_rules(input: &TxRuleInput, thresholds: &TxRuleThresholds) -> (r: RuleSetResult)
    ensures
        match_views(r.matches@) == rule_events(input@, *thresholds),
{
    let mut out = RuleSetResult::default();
    assert(match_views(out.matches@).len() == out.matches@.len());
    let mut outputs = evaluate_abnormal_output_value(input, thresholds);
    let ghost first = match_views(outputs@);
    out.matches.append(&mut outputs);
    assert(match_views(out.matches@) =~= first);
    let ghost second = total_events(input@, thresholds.abnormal_tx_total_atomic);
    match evaluate_abnormal_tx_total(input, thresholds) {
        Some(m) => {
            out.push(m);
            assert(match_views(out.matches@) =~= first + second);
        },
        None => {
            assert(match_views(out.matches@) =~= first + second);
        },
    }
    let mut receivers = evaluate_receiver_concentration(input, thresholds);
    let ghost third = match_views(receivers@);
    out.matches.append(&mut receivers);
    assert(match_views(out.matches@) =~= first + second + third);
    out
}

// ---------------------------------------------------------------------------
// Amounts
// ---------------------------------------------------------------------------

/// An amount in coins with eight decimals.
pub open spec fn coin_text(v: u64) -> Seq<char> {
    decimal(v as nat / ATOMIC_PER_COIN as nat) + "."@ + fixed_digits(
        v as nat % ATOMIC_PER_COIN as nat,
        8,
    )
}

/// Renders an amount in coins with eight decimals.
pub fn format_atomic_8(v: u64) -> (r: String)
    ensures
        r@ == coin_text(v),
{
    let mut s = decimal_text(v / ATOMIC_PER_COIN);
    s.append(".");
    s.append(fixed_text(v % ATOMIC_PER_COIN, 8).as_str());
    s
}

/// Two amounts with one text are one amount.
pub proof fn coin_text_is_injective(a: u64, b: u64)
    requires
        coin_text(a) == coin_text(b),
    ensures
        a == b,
{
    let coin = ATOMIC_PER_COIN as nat;
    let (wa, fa) = (a as nat / coin, a as nat % coin);
    let (wb, fb) = (b as nat / coin, b as nat % coin);
    reveal_strlit(".");
    assert(vstd::arithmetic::power::pow(10, 8) == 100_000_000) by {
        reveal_with_fuel(vstd::arithmetic::power::pow, 9);
    }
    fixed_digits_read_back(fa, 8);
    fixed_digits_read_back(fb, 8);
    decimal_reads_back(wa);
    decimal_reads_back(wb);
    let (s, t) = (coin_text(a), coin_text(b));
    assert(s.skip(s.len() - 8) =~= fixed_digits(fa, 8));
    assert(t.skip(t.len() - 8) =~= fixed_digits(fb, 8));
    assert(s.take(s.len() - 9) =~= decimal(wa));
    assert(t.take(t.len() - 9) =~= decimal(wb));
}

/// The text of an amount has eight decimals, and its digits are those of the number of atomic
/// units.
pub proof fn coin_text_reads_as_the_amount(v: u64)
    ensures
        coin_text(v).len() >= 10,
        coin_text(v)[coin_text(v).len() - 9] == '.',
        decimal_value(digits_in(coin_text(v))) == v,
        coin_text(v)[0] == '0' ==> coin_text(v).len() == 10,
{
    let coin = ATOMIC_PER_COIN as nat;
    let (whole, part) = (v as nat / coin, v as nat % coin);
    let head = decimal(whole);
    let tail = fixed_digits(part, 8);
    reveal_strlit(".");
    assert("."@ =~= seq!['.']);
    assert(vstd::arithmetic::power::pow(10, 8) == 100_000_000) by {
        reveal_with_fuel(vstd::arithmetic::power::pow, 9);
    }
    numerals_are_digits(whole, 0);
    numerals_are_digits(part, 8);
    decimal_reads_back(whole);
    fixed_digits_read_back(part, 8);
    digits_are_kept(head);
    digits_are_kept(tail);
    digits_add_up(head + "."@, tail);
    digits_add_up(head, "."@);
    marks_hold_no_digit('.');
    assert(digits_in(coin_text(v)) =~= head + tail);
    numerals_are_positional(head, tail);
    assert(coin_text(v)[0] == head[0]);
    if head[0] == '0' {
        assert(whole == 0);
        assert(decimal(0).len() == 1);
    }
}

// ---------------------------------------------------------------------------
// Event ids
// ---------------------------------------------------------------------------

proof fn lemma_names_are_dashless(s: Seq<char>)
    requires
        names_tx(s),
    ensures
        lacks(s, '-'),
{
    assert forall|i: int| 0 <= i < s.len() implies #[trigger] s[i] != '-' by {
        if s[i] == '-' {
            names_hold_no_other(s, i);
        }
    }
}

/// What follows the transaction id in the id of an event of the rule on single outputs.
spec fn output_rest(index: u32) -> Seq<char> {
    "out-"@ + decimal(index as nat) + "-"@ + lower_text(RULE_OUTPUT_001@)
}

/// What follows the transaction id in the id of an event of the rule on receivers.
spec fn receiver_rest(address: Seq<char>) -> Seq<char> {
    "recv-"@ + address + "-"@ + lower_text(RULE_RECV_001@)
}

proof fn lemma_id_shapes(txid: Seq<char>, index: u32, address: Seq<char>)
    ensures
        output_event_id(txid, index) == "sentinel-"@ + txid + seq!['-'] + output_rest(index),
        total_event_id(txid) == "sentinel-"@ + txid + seq!['-'] + lower_text(RULE_TXTOTAL_001@),
        receiver_event_id(txid, address) == "sentinel-"@ + txid + seq!['-'] + receiver_rest(address),
        output_rest(index)[0] == 'o',
        receiver_rest(address)[0] == 'r',
        receiver_rest(address)[1] == 'e',
        lower_text(RULE_TXTOTAL_001@)[0] == 'r',
        lower_text(RULE_TXTOTAL_001@)[1] == 'u',
{
    reveal_strlit("-");
    reveal_strlit("-out-");
    reveal_strlit("out-");
    reveal_strlit("-recv-");
    reveal_strlit("recv-");
    reveal_strlit("RULE-TXTOTAL-001");
    assert("-out-"@ =~= seq!['-'] + "out-"@);
    assert("-recv-"@ =~= seq!['-'] + "recv-"@);
    assert("-"@ =~= seq!['-']);
    assert(output_event_id(txid, index) =~= "sentinel-"@ + txid + seq!['-'] + output_rest(index));
    assert(total_event_id(txid) =~= "sentinel-"@ + txid + seq!['-'] + lower_text(
        RULE_TXTOTAL_001@,
    ));
    assert(receiver_event_id(txid, address) =~= "sentinel-"@ + txid + seq!['-'] + receiver_rest(
        address,
    ));
}

/// An event id tells the rule, the transaction, and the output or the receiver.
pub proof fn event_ids_are_unique(
    s: Seq<char>,
    t: Seq<char>,
    i: u32,
    j: u32,
    a: Seq<char>,
    b: Seq<char>,
)
    requires
        names_tx(s),
        names_tx(t),
    ensures
        output_event_id(s, i) == output_event_id(t, j) ==> s == t && i == j,
        total_event_id(s) == total_event_id(t) ==> s == t,
        receiver_event_id(s, a) == receiver_event_id(t, b) ==> s == t && a == b,
        output_event_id(s, i) != total_event_id(t),
        output_event_id(s, i) != receiver_event_id(t, b),
        total_event_id(s) != receiver_event_id(t, b),
{
    let p = "sentinel-"@;
    let total = lower_text(RULE_TXTOTAL_001@);
    lemma_names_are_dashless(s);
    lemma_names_are_dashless(t);
    lemma_id_shapes(s, i, a);
    lemma_id_shapes(t, j, b);
    if output_event_id(s, i) == output_event_id(t, j) {
        split_is_unique('-', p, s, output_rest(i), t, output_rest(j));
        let q = "-"@ + lower_text(RULE_OUTPUT_001@);
        assert(output_rest(i) =~= "out-"@ + decimal(i as nat) + q);
        assert(output_rest(j) =~= "out-"@ + decimal(j as nat) + q);
        lemma_same_middle("out-"@, decimal(i as nat), decimal(j as nat), q);
        decimal_reads_back(i as nat);
        decimal_reads_back(j as nat);
    }
    if total_event_id(s) == total_event_id(t) {
        split_is_unique('-', p, s, total, t, total);
    }
    if receiver_event_id(s, a) == receiver_event_id(t, b) {
        split_is_unique('-', p, s, receiver_rest(a), t, receiver_rest(b));
        let q = "-"@ + lower_text(RULE_RECV_001@);
        assert(receiver_rest(a) =~= "recv-"@ + a + q);
        assert(receiver_rest(b) =~= "recv-"@ + b + q);
        lemma_same_middle("recv-"@, a, b, q);
    }
    if output_event_id(s, i) == total_event_id(t) {
        split_is_unique('-', p, s, output_rest(i), t, total);
    }
    if output_event_id(s, i) == receiver_event_id(t, b) {
        split_is_unique('-', p, s, output_rest(i), t, receiver_rest(b));
    }
    if total_event_id(s) == receiver_event_id(t, b) {
        split_is_unique('-', p, s, total, t, receiver_rest(b));
    }
}

proof fn lemma_same_middle(p: Seq<char>, a: Seq<char>, b: Seq<char>, q: Seq<char>)
    requires
        p + a + q == p + b + q,
    ensures
        a == b,
{
    let x = p + a + q;
    let y = p + b + q;
    assert(x.len() == p.len() + a.len() + q.len());
    assert(y.len() == p.len() + b.len() + q.len());
    assert(x == y);
    assert(a =~= x.subrange(p.len() as int, (p.len() + a.len()) as int));
    assert(b =~= y.subrange(p.len() as int, (p.len() + b.len()) as int));
}

} // verus!
