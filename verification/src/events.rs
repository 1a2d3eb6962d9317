//! The events that anomaly rules raise.

use vstd::prelude::*;
use vstd::string::*;

use crate::amounts::Ratio;
use crate::index::texts;
use crate::json::{json_fields, json_object, no_fields, Field};

verus! {

/// The version of the event schema.
pub const SCHEMA_VERSION: &'static str = "1.0.0";

/// The text in an option.
pub open spec fn text_in(o: Option<String>) -> Option<Seq<char>> {
    match o {
        Some(text) => Some(text@),
        None => None,
    }
}

// ---------------------------------------------------------------------------
// Network and block context
// ---------------------------------------------------------------------------

/// Where an event was seen.
#[derive(Debug)]
pub struct SentinelNetworkContext {
    pub chain: String,
    pub network_type: String,
    pub node_id: String,
    pub db_height: u64,
    pub best_tip_hash: String,
}

/// What a network context says.
pub struct NetworkView {
    pub chain: Seq<char>,
    pub network_type: Seq<char>,
    pub node_id: Seq<char>,
    pub db_height: u64,
    pub best_tip_hash: Seq<char>,
}

impl View for SentinelNetworkContext {
    type V = NetworkView;

    open spec fn view(&self) -> NetworkView {
        NetworkView {
            chain: self.chain@,
            network_type: self.network_type@,
            node_id: self.node_id@,
            db_height: self.db_height,
            best_tip_hash: self.best_tip_hash@,
        }
    }
}

impl Clone for SentinelNetworkContext {
    fn clone(&self) -> (r: Self)
        ensures
            r@ == self@,
    {
        SentinelNetworkContext {
            chain: self.chain.clone(),
            network_type: self.network_type.clone(),
            node_id: self.node_id.clone(),
            db_height: self.db_height,
            best_tip_hash: self.best_tip_hash.clone(),
        }
    }
}

/// The block in which an event was seen.
#[derive(Debug)]
pub struct SentinelBlockContext {
    pub height: u64,
    pub hash: String,
    pub prev_hash: String,
    pub timestamp: String,
    pub tx_count: usize,
    pub coinbase_txid: String,
}

/// What a block context says.
pub struct BlockView {
    pub height: u64,
    pub hash: Seq<char>,
    pub prev_hash: Seq<char>,
    pub timestamp: Seq<char>,
    pub tx_count: usize,
    pub coinbase_txid: Seq<char>,
}

impl View for SentinelBlockContext {
    type V = BlockView;

    open spec fn view(&self) -> BlockView {
        BlockView {
            height: self.height,
            hash: self.hash@,
            prev_hash: self.prev_hash@,
            timestamp: self.timestamp@,
            tx_count: self.tx_count,
            coinbase_txid: self.coinbase_txid@,
        }
    }
}

impl Clone for SentinelBlockContext {
    fn clone(&self) -> (r: Self)
        ensures
            r@ == self@,
    {
        SentinelBlockContext {
            height: self.height,
            hash: self.hash.clone(),
            prev_hash: self.prev_hash.clone(),
            timestamp: self.timestamp.clone(),
            tx_count: self.tx_count,
            coinbase_txid: self.coinbase_txid.clone(),
        }
    }
}

// ---------------------------------------------------------------------------
// Anomaly
// ---------------------------------------------------------------------------

/// What was expected.
#[derive(Debug)]
pub struct SentinelAmountSummary {
    pub subsidy_atomic: Option<u128>,
    pub fees_atomic: Option<u128>,
    pub allowed_coinbase_atomic: Option<u128>,
    pub extra: serde_json::Map<String, serde_json::Value>,
}

/// What an amount summary says.
pub struct AmountView {
    pub subsidy_atomic: Option<u128>,
    pub fees_atomic: Option<u128>,
    pub allowed_coinbase_atomic: Option<u128>,
    pub extra: Map<Seq<char>, Field>,
}

impl View for SentinelAmountSummary {
    type V = AmountView;

    open spec fn view(&self) -> AmountView {
        AmountView {
            subsidy_atomic: self.subsidy_atomic,
            fees_atomic: self.fees_atomic,
            allowed_coinbase_atomic: self.allowed_coinbase_atomic,
            extra: json_fields(self.extra),
        }
    }
}
impl Clone for SentinelAmountSummary {
    fn clone(&self) -> (r: Self)
        ensures
            r@ == self@,
    {
        SentinelAmountSummary {
            subsidy_atomic: self.subsidy_atomic,
            fees_atomic: self.fees_atomic,
            allowed_coinbase_atomic: self.allowed_coinbase_atomic,
            extra: self.extra.clone(),
        }
    }
}


impl Default for SentinelAmountSummary {
    fn default() -> (r: Self)
        ensures
            r@ == (AmountView {
                subsidy_atomic: None,
                fees_atomic: None,
                allowed_coinbase_atomic: None,
                extra: no_fields(),
            }),
    {
        SentinelAmountSummary {
            subsidy_atomic: None,
            fees_atomic: None,
            allowed_coinbase_atomic: None,
            extra: json_object(),
        }
    }
}

/// What was observed.
#[derive(Debug)]
pub struct SentinelObservedSummary {
    pub coinbase_total_atomic: Option<u128>,
    pub coinbase_output_count: Option<usize>,
    pub extra: serde_json::Map<String, serde_json::Value>,
}

/// What an observed summary says.
pub struct ObservedView {
    pub coinbase_total_atomic: Option<u128>,
    pub coinbase_output_count: Option<usize>,
    pub extra: Map<Seq<char>, Field>,
}

impl View for SentinelObservedSummary {
    type V = ObservedView;

    open spec fn view(&self) -> ObservedView {
        ObservedView {
            coinbase_total_atomic: self.coinbase_total_atomic,
            coinbase_output_count: self.coinbase_output_count,
            extra: json_fields(self.extra),
        }
    }
}
impl Clone for SentinelObservedSummary {
    fn clone(&self) -> (r: Self)
        ensures
            r@ == self@,
    {
        SentinelObservedSummary {
            coinbase_total_atomic: self.coinbase_total_atomic,
            coinbase_output_count: self.coinbase_output_count,
            extra: self.extra.clone(),
        }
    }
}


impl Default for SentinelObservedSummary {
    fn default() -> (r: Self)
        ensures
            r@ == (ObservedView {
                coinbase_total_atomic: None,
                coinbase_output_count: None,
                extra: no_fields(),
            }),
    {
        SentinelObservedSummary {
            coinbase_total_atomic: None,
            coinbase_output_count: None,
            extra: json_object(),
        }
    }
}

/// How far what was observed is from what was expected.
#[derive(Debug)]
pub struct SentinelDeltaSummary {
    pub excess_atomic: Option<u128>,
    /// The observed amount over the threshold.
    pub reward_ratio: Option<Ratio>,
    pub extra: serde_json::Map<String, serde_json::Value>,
}

/// What a delta summary says.
pub struct DeltaView {
    pub excess_atomic: Option<u128>,
    pub reward_ratio: Option<Ratio>,
    pub extra: Map<Seq<char>, Field>,
}

impl View for SentinelDeltaSummary {
    type V = DeltaView;

    open spec fn view(&self) -> DeltaView {
        DeltaView {
            excess_atomic: self.excess_atomic,
            reward_ratio: self.reward_ratio,
            extra: json_fields(self.extra),
        }
    }
}
impl Clone for SentinelDeltaSummary {
    fn clone(&self) -> (r: Self)
        ensures
            r@ == self@,
    {
        SentinelDeltaSummary {
            excess_atomic: self.excess_atomic,
            reward_ratio: self.reward_ratio,
            extra: self.extra.clone(),
        }
    }
}


impl Default for SentinelDeltaSummary {
    fn default() -> (r: Self)
        ensures
            r@ == (DeltaView { excess_atomic: None, reward_ratio: None, extra: no_fields() }),
    {
        SentinelDeltaSummary { excess_atomic: None, reward_ratio: None, extra: json_object() }
    }
}

/// What is wrong.
#[derive(Debug)]
pub struct SentinelAnomaly {
    pub rule_id: String,
    pub rule_name: String,
    pub category: String,
    /// The confidence in hundredths.
    pub confidence_percent: u32,
    pub expected: SentinelAmountSummary,
    pub observed: SentinelObservedSummary,
    pub delta: SentinelDeltaSummary,
}

/// What an anomaly says.
pub struct AnomalyView {
    pub rule_id: Seq<char>,
    pub rule_name: Seq<char>,
    pub category: Seq<char>,
    pub confidence_percent: u32,
    pub expected: AmountView,
    pub observed: ObservedView,
    pub delta: DeltaView,
}

impl View for SentinelAnomaly {
    type V = AnomalyView;

    open spec fn view(&self) -> AnomalyView {
        AnomalyView {
            rule_id: self.rule_id@,
            rule_name: self.rule_name@,
            category: self.category@,
            confidence_percent: self.confidence_percent,
            expected: self.expected@,
            observed: self.observed@,
            delta: self.delta@,
        }
    }
}
impl Clone for SentinelAnomaly {
    fn clone(&self) -> (r: Self)
        ensures
            r@ == self@,
    {
        SentinelAnomaly {
            rule_id: self.rule_id.clone(),
            rule_name: self.rule_name.clone(),
            category: self.category.clone(),
            confidence_percent: self.confidence_percent,
            expected: self.expected.clone(),
            observed: self.observed.clone(),
            delta: self.delta.clone(),
        }
    }
}


// ---------------------------------------------------------------------------
// Evidence
// ---------------------------------------------------------------------------

/// An output that supports an event.
#[derive(Debug)]
pub struct SentinelOutputEvidence {
    pub index: u32,
    pub address: String,
    pub amount_atomic: u128,
    pub amount_display: String,
}

/// What an output that supports an event says.
pub struct OutputEvidenceView {
    pub index: u32,
    pub address: Seq<char>,
    pub amount_atomic: u128,
    pub amount_display: Seq<char>,
}

impl View for SentinelOutputEvidence {
    type V = OutputEvidenceView;

    open spec fn view(&self) -> OutputEvidenceView {
        OutputEvidenceView {
            index: self.index,
            address: self.address@,
            amount_atomic: self.amount_atomic,
            amount_display: self.amount_display@,
        }
    }
}
impl Clone for SentinelOutputEvidence {
    fn clone(&self) -> (r: Self)
        ensures
            r@ == self@,
    {
        SentinelOutputEvidence {
            index: self.index,
            address: self.address.clone(),
            amount_atomic: self.amount_atomic,
            amount_display: self.amount_display.clone(),
        }
    }
}


/// What outputs that support an event say.
pub open spec fn output_evidence(outputs: Seq<SentinelOutputEvidence>) -> Seq<OutputEvidenceView> {
    Seq::new(outputs.len(), |i: int| outputs[i]@)
}

/// What supports an event.
#[derive(Debug)]
pub struct SentinelEvidence {
    pub coinbase_outputs: Vec<SentinelOutputEvidence>,
    pub flags: Vec<String>,
    pub extra: serde_json::Map<String, serde_json::Value>,
}

/// What evidence says.
pub struct EvidenceView {
    pub coinbase_outputs: Seq<OutputEvidenceView>,
    pub flags: Seq<Seq<char>>,
    pub extra: Map<Seq<char>, Field>,
}

impl View for SentinelEvidence {
    type V = EvidenceView;

    open spec fn view(&self) -> EvidenceView {
        EvidenceView {
            coinbase_outputs: output_evidence(self.coinbase_outputs@),
            flags: texts(self.flags@),
            extra: json_fields(self.extra),
        }
    }
}
impl Clone for SentinelEvidence {
    fn clone(&self) -> (r: Self)
        ensures
            r@ == self@,
    {
        let coinbase_outputs = self.coinbase_outputs.clone();
        let flags = self.flags.clone();
        assert(output_evidence(coinbase_outputs@) =~= output_evidence(self.coinbase_outputs@));
        assert(texts(flags@) =~= texts(self.flags@));
        SentinelEvidence { coinbase_outputs, flags, extra: self.extra.clone() }
    }
}


impl Default for SentinelEvidence {
    fn default() -> (r: Self)
        ensures
            r@ == (EvidenceView { coinbase_outputs: seq![], flags: seq![], extra: no_fields() }),
    {
        let r = SentinelEvidence {
            coinbase_outputs: Vec::new(),
            flags: Vec::new(),
            extra: json_object(),
        };
        assert(output_evidence(r.coinbase_outputs@) =~= seq![]);
        assert(texts(r.flags@) =~= seq![]);
        r
    }
}

// ---------------------------------------------------------------------------
// Impact, disposition and links
// ---------------------------------------------------------------------------

/// What an event may lead to.
#[derive(Debug)]
pub struct SentinelImpact {
    pub estimated_supply_increase_atomic: Option<u128>,
    pub estimated_supply_increase_display: Option<String>,
    pub potential_exchange_risk: Option<bool>,
    pub potential_consensus_risk: Option<bool>,
    pub extra: serde_json::Map<String, serde_json::Value>,
}

/// What an impact says.
pub struct ImpactView {
    pub estimated_supply_increase_atomic: Option<u128>,
    pub estimated_supply_increase_display: Option<Seq<char>>,
    pub potential_exchange_risk: Option<bool>,
    pub potential_consensus_risk: Option<bool>,
    pub extra: Map<Seq<char>, Field>,
}

impl View for SentinelImpact {
    type V = ImpactView;

    open spec fn view(&self) -> ImpactView {
        ImpactView {
            estimated_supply_increase_atomic: self.estimated_supply_increase_atomic,
            estimated_supply_increase_display: text_in(self.estimated_supply_increase_display),
            potential_exchange_risk: self.potential_exchange_risk,
            potential_consensus_risk: self.potential_consensus_risk,
            extra: json_fields(self.extra),
        }
    }
}
impl Clone for SentinelImpact {
    fn clone(&self) -> (r: Self)
        ensures
            r@ == self@,
    {
        SentinelImpact {
            estimated_supply_increase_atomic: self.estimated_supply_increase_atomic,
            estimated_supply_increase_display: self.estimated_supply_increase_display.clone(),
            potential_exchange_risk: self.potential_exchange_risk,
            potential_consensus_risk: self.potential_consensus_risk,
            extra: self.extra.clone(),
        }
    }
}


impl Default for SentinelImpact {
    fn default() -> (r: Self)
        ensures
            r@ == (ImpactView {
                estimated_supply_increase_atomic: None,
                estimated_supply_increase_display: None,
                potential_exchange_risk: None,
                potential_consensus_risk: None,
                extra: no_fields(),
            }),
    {
        SentinelImpact {
            estimated_supply_increase_atomic: None,
            estimated_supply_increase_display: None,
            potential_exchange_risk: None,
            potential_consensus_risk: None,
            extra: json_object(),
        }
    }
}

/// What is to be done about an event.
#[derive(Debug, Clone, Copy)]
pub struct SentinelDisposition {
    pub should_page: Option<bool>,
    pub should_freeze_exchange: Option<bool>,
    pub should_freeze_pool: Option<bool>,
    pub requires_manual_review: Option<bool>,
}

impl Default for SentinelDisposition {
    fn default() -> (r: Self)
        ensures
            r == (SentinelDisposition {
                should_page: None,
                should_freeze_exchange: None,
                should_freeze_pool: None,
                requires_manual_review: None,
            }),
    {
        SentinelDisposition {
            should_page: None,
            should_freeze_exchange: None,
            should_freeze_pool: None,
            requires_manual_review: None,
        }
    }
}

/// Where to look further.
#[derive(Debug)]
pub struct SentinelLinks {
    pub explorer_block_url: Option<String>,
    pub explorer_tx_url: Option<String>,
    pub internal_api_url: Option<String>,
}

/// What links say.
pub struct LinksView {
    pub explorer_block_url: Option<Seq<char>>,
    pub explorer_tx_url: Option<Seq<char>>,
    pub internal_api_url: Option<Seq<char>>,
}

impl View for SentinelLinks {
    type V = LinksView;

    open spec fn view(&self) -> LinksView {
        LinksView {
            explorer_block_url: text_in(self.explorer_block_url),
            explorer_tx_url: text_in(self.explorer_tx_url),
            internal_api_url: text_in(self.internal_api_url),
        }
    }
}
impl Clone for SentinelLinks {
    fn clone(&self) -> (r: Self)
        ensures
            r@ == self@,
    {
        SentinelLinks {
            explorer_block_url: self.explorer_block_url.clone(),
            explorer_tx_url: self.explorer_tx_url.clone(),
            internal_api_url: self.internal_api_url.clone(),
        }
    }
}


impl Default for SentinelLinks {
    fn default() -> (r: Self)
        ensures
            r@ == (LinksView {
                explorer_block_url: None,
                explorer_tx_url: None,
                internal_api_url: None,
            }),
    {
        SentinelLinks { explorer_block_url: None, explorer_tx_url: None, internal_api_url: None }
    }
}

/// A short form of an event for notifications.
#[derive(Debug, Clone)]
pub struct SentinelNotification {
    pub title: String,
    pub summary: String,
    pub severity: String,
    pub height: u64,
    pub event_type: String,
    pub recommended_actions: Vec<String>,
}

// ---------------------------------------------------------------------------
// The event
// ---------------------------------------------------------------------------

/// An event that an anomaly rule raised.
#[derive(Debug)]
pub struct SentinelEvent {
    pub schema_version: String,
    pub event_id: String,
    pub event_type: String,
    pub severity: String,
    pub status: String,
    pub detected_at: String,
    pub network: SentinelNetworkContext,
    pub block: SentinelBlockContext,
    pub anomaly: SentinelAnomaly,
    pub evidence: SentinelEvidence,
    pub impact: Option<SentinelImpact>,
    pub disposition: Option<SentinelDisposition>,
    pub recommended_actions: Vec<String>,
    pub links: Option<SentinelLinks>,
    pub notes: Vec<String>,
}

/// What an event says.
pub struct EventView {
    pub schema_version: Seq<char>,
    pub event_id: Seq<char>,
    pub event_type: Seq<char>,
    pub severity: Seq<char>,
    pub status: Seq<char>,
    pub detected_at: Seq<char>,
    pub network: NetworkView,
    pub block: BlockView,
    pub anomaly: AnomalyView,
    pub evidence: EvidenceView,
    pub impact: Option<ImpactView>,
    pub disposition: Option<SentinelDisposition>,
    pub recommended_actions: Seq<Seq<char>>,
    pub links: Option<LinksView>,
    pub notes: Seq<Seq<char>>,
}

impl View for SentinelEvent {
    type V = EventView;

    open spec fn view(&self) -> EventView {
        EventView {
            schema_version: self.schema_version@,
            event_id: self.event_id@,
            event_type: self.event_type@,
            severity: self.severity@,
            status: self.status@,
            detected_at: self.detected_at@,
            network: self.network@,
            block: self.block@,
            anomaly: self.anomaly@,
            evidence: self.evidence@,
            impact: match self.impact {
                Some(impact) => Some(impact@),
                None => None,
            },
            disposition: self.disposition,
            recommended_actions: texts(self.recommended_actions@),
            links: match self.links {
                Some(links) => Some(links@),
                None => None,
            },
            notes: texts(self.notes@),
        }
    }
}
impl Clone for SentinelEvent {
    fn clone(&self) -> (r: Self)
        ensures
            r@ == self@,
    {
        let recommended_actions = self.recommended_actions.clone();
        let notes = self.notes.clone();
        assert(texts(recommended_actions@) =~= texts(self.recommended_actions@));
        assert(texts(notes@) =~= texts(self.notes@));
        SentinelEvent {
            schema_version: self.schema_version.clone(),
            event_id: self.event_id.clone(),
            event_type: self.event_type.clone(),
            severity: self.severity.clone(),
            status: self.status.clone(),
            detected_at: self.detected_at.clone(),
            network: self.network.clone(),
            block: self.block.clone(),
            anomaly: self.anomaly.clone(),
            evidence: self.evidence.clone(),
            impact: self.impact.clone(),
            disposition: self.disposition,
            recommended_actions,
            links: self.links.clone(),
            notes,
        }
    }
}


/// What events say.
pub open spec fn event_views(events: Seq<SentinelEvent>) -> Seq<EventView> {
    Seq::new(events.len(), |i: int| events[i]@)
}

impl SentinelEvent {
    /// An event whose optional parts are empty.
    pub fn new(
        event_id: String,
        event_type: String,
        severity: String,
        status: String,
        detected_at: String,
        network: SentinelNetworkContext,
        block: SentinelBlockContext,
        anomaly: SentinelAnomaly,
        evidence: SentinelEvidence,
    ) -> (r: Self)
        ensures
            r@ == (EventView {
                schema_version: SCHEMA_VERSION@,
                event_id: event_id@,
                event_type: event_type@,
                severity: severity@,
                status: status@,
                detected_at: detected_at@,
                network: network@,
                block: block@,
                anomaly: anomaly@,
                evidence: evidence@,
                impact: None,
                disposition: None,
                recommended_actions: seq![],
                links: None,
                notes: seq![],
            }),
    {
        let r = SentinelEvent {
            schema_version: SCHEMA_VERSION.to_string(),
            event_id,
            event_type,
            severity,
            status,
            detected_at,
            network,
            block,
            anomaly,
            evidence,
            impact: None,
            disposition: None,
            recommended_actions: Vec::new(),
            links: None,
            notes: Vec::new(),
        };
        assert(texts(r.recommended_actions@) =~= seq![]);
        assert(texts(r.notes@) =~= seq![]);
        r
    }

    /// The event with this impact.
    pub fn with_impact(self, impact: SentinelImpact) -> (r: Self)
        ensures
            r@ == (EventView { impact: Some(impact@), ..self@ }),
    {
        let mut event = self;
        event.impact = Some(impact);
        event
    }

    /// The event with this disposition.
    pub fn with_disposition(self, disposition: SentinelDisposition) -> (r: Self)
        ensures
            r@ == (EventView { disposition: Some(disposition), ..self@ }),
    {
        let mut event = self;
        event.disposition = Some(disposition);
        event
    }

    /// The event with these links.
    pub fn with_links(self, links: SentinelLinks) -> (r: Self)
        ensures
            r@ == (EventView { links: Some(links@), ..self@ }),
    {
        let mut event = self;
        event.links = Some(links);
        event
    }

    /// The event with these recommended actions.
    pub fn with_actions(self, actions: Vec<String>) -> (r: Self)
        ensures
            r@ == (EventView { recommended_actions: texts(actions@), ..self@ }),
    {
        let mut event = self;
        event.recommended_actions = actions;
        event
    }

    /// The event with these notes.
    pub fn with_notes(self, notes: Vec<String>) -> (r: Self)
        ensures
            r@ == (EventView { notes: texts(notes@), ..self@ }),
    {
        let mut event = self;
        event.notes = notes;
        event
    }
}

// ---------------------------------------------------------------------------
// Names of event types, severities, states and rules
// ---------------------------------------------------------------------------

pub const EVENT_TYPE_COINBASE_OVERPAY: &'static str = "coinbase_overpay";

pub const EVENT_TYPE_SUPPLY_JUMP: &'static str = "supply_jump_detected";

pub const EVENT_TYPE_ABNORMAL_OUTPUT: &'static str = "abnormal_output_value";

pub const EVENT_TYPE_DOUBLE_SPEND_SUSPECTED: &'static str = "double_spend_suspected";

pub const EVENT_TYPE_CONSENSUS_MISMATCH: &'static str = "consensus_mismatch_candidate";

pub const EVENT_TYPE_EXCHANGE_DUMP_SUSPECTED: &'static str = "exchange_dump_suspected";

pub const EVENT_TYPE_SERIALIZATION_ANOMALY: &'static str = "serialization_anomaly";

pub const EVENT_TYPE_FEE_OVERFLOW_SUSPECTED: &'static str = "fee_overflow_suspected";

pub const EVENT_TYPE_AMOUNT_OVERFLOW_SUSPECTED: &'static str = "amount_overflow_suspected";

pub const SEVERITY_INFO: &'static str = "info";

pub const SEVERITY_LOW: &'static str = "low";

pub const SEVERITY_MEDIUM: &'static str = "medium";

pub const SEVERITY_HIGH: &'static str = "high";

pub const SEVERITY_CRITICAL: &'static str = "critical";

pub const STATUS_OPEN: &'static str = "open";

pub const STATUS_ACKNOWLEDGED: &'static str = "acknowledged";

pub const STATUS_RESOLVED: &'static str = "resolved";

pub const RULE_COINBASE_001: &'static str = "RULE-COINBASE-001";

pub const RULE_SUPPLY_001: &'static str = "RULE-SUPPLY-001";

pub const RULE_OUTPUT_001: &'static str = "RULE-OUTPUT-001";

pub const RULE_FEE_001: &'static str = "RULE-FEE-001";

pub const RULE_UTXO_001: &'static str = "RULE-UTXO-001";

pub const RULE_SERIALIZE_001: &'static str = "RULE-SERIALIZE-001";

pub const RULE_FLOW_001: &'static str = "RULE-FLOW-001";

} // verus!
