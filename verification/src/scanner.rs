//! Scanning the transactions of the store for anomalies.

use std::time::{Duration, SystemTime, UNIX_EPOCH};

use vstd::prelude::*;
use vstd::string::*;

use crate::db::{lemma_count_step, lemma_next_slot, lemma_scan_ends};
use crate::events::{
    event_views, text_in, BlockView, EventView, NetworkView, SentinelBlockContext, SentinelEvent,
    SentinelNetworkContext,
};
use crate::intelligence::{receiver_of_slot, slot_amounts};
use crate::keys::key_text;
use crate::model::{
    amount_in, outputs_to, receiver_is_within_the_whole, saturated, slots_are_spent_or_unspent,
    spent_count, unspent_count, unspent_sum, valid_txs, wallets, wallets_are_the_receivers, Tx,
};
use crate::outputs::{slot_of, slots_of, Slot, TxOutput};
use crate::rank::{leader, lemma_leader_step, places, rank_descending, ranking, ranks};
use crate::rules::{
    coin_text, evaluate_all_tx_rules, format_atomic_8, match_views, output_facts, receiver_facts,
    rule_events, usual_thresholds, OutputFactView, ReceiverAggregateFact, ReceiverView,
    RuleInputView, TxOutputFact, TxRuleInput, TxRuleThresholds,
};
use crate::store::{collect_valid_tx_entries, txs_of, ReadFault, Snapshot, TxEntry};
use crate::tally::{
    lemma_payment_step, lemma_spent_step, lemma_whole_step, wallet_texts, wallet_totals, Tally,
};
use crate::text::{decimal, decimal_text};

verus! {

// ---------------------------------------------------------------------------
// Configuration
// ---------------------------------------------------------------------------

/// How to scan.
#[derive(Debug, Clone)]
pub struct ScanConfig {
    pub chain: String,
    pub network_type: String,
    pub node_id: String,
    pub thresholds: TxRuleThresholds,
}

impl Default for ScanConfig {
    fn default() -> (r: Self)
        ensures
            r.chain@ == "snapcoin"@,
            r.network_type@ == "mainnet"@,
            r.node_id@ == "snap-sentinel-01"@,
            r.thresholds == usual_thresholds(),
    {
        ScanConfig {
            chain: "snapcoin".to_string(),
            network_type: "mainnet".to_string(),
            node_id: "snap-sentinel-01".to_string(),
            thresholds: TxRuleThresholds::default(),
        }
    }
}

// ---------------------------------------------------------------------------
// Facts of a transaction
// ---------------------------------------------------------------------------

/// What is known of a transaction.
#[derive(Debug, Clone)]
pub struct DecodedTxFacts {
    pub txid: String,
    pub output_count: usize,
    pub unspent_count: usize,
    pub spent_count: usize,
    pub tx_total_unspent_atomic: u64,
    pub largest_output_atomic: u64,
    pub largest_output_index: Option<u32>,
    pub largest_output_address: Option<String>,
    pub outputs: Vec<TxOutputFact>,
    pub receiver_aggregates: Vec<ReceiverAggregateFact>,
}

/// What is known of a transaction.
pub struct FactsView {
    pub txid: Seq<char>,
    pub output_count: usize,
    pub unspent_count: usize,
    pub spent_count: usize,
    pub tx_total_unspent_atomic: u64,
    pub largest_output_atomic: u64,
    pub largest_output_index: Option<u32>,
    pub largest_output_address: Option<Seq<char>>,
    pub outputs: Seq<OutputFactView>,
    pub receiver_aggregates: Seq<ReceiverView>,
}

impl View for DecodedTxFacts {
    type V = FactsView;

    open spec fn view(&self) -> FactsView {
        FactsView {
            txid: self.txid@,
            output_count: self.output_count,
            unspent_count: self.unspent_count,
            spent_count: self.spent_count,
            tx_total_unspent_atomic: self.tx_total_unspent_atomic,
            largest_output_atomic: self.largest_output_atomic,
            largest_output_index: self.largest_output_index,
            largest_output_address: text_in(self.largest_output_address),
            outputs: output_facts(self.outputs@),
            receiver_aggregates: receiver_facts(self.receiver_aggregates@),
        }
    }
}

/// The unspent outputs among the slots, with their positions.
pub open spec fn slot_facts(slots: Seq<Slot>) -> Seq<OutputFactView>
    decreases slots.len(),
{
    if slots.len() == 0 {
        seq![]
    } else {
        let before = slot_facts(slots.drop_last());
        match slots.last() {
            Some((amount, key)) => before.push(
                OutputFactView {
                    index: (slots.len() - 1) as u32,
                    address: key_text(key),
                    amount_atomic: amount,
                    amount_display: coin_text(amount),
                },
            ),
            None => before,
        }
    }
}

/// What is known of the receiver at a place among the wallets.
pub open spec fn receiver_at(slots: Seq<Slot>, place: int) -> ReceiverView {
    ReceiverView {
        address: wallet_texts(slots)[place],
        output_count: outputs_to(slots, wallets(slots)[place]) as usize,
        total_atomic: wallet_totals(slots)[place],
        total_display: coin_text(wallet_totals(slots)[place]),
    }
}

/// The receivers by what they get, the one seen earlier first among equals.
pub open spec fn ranked_receivers(slots: Seq<Slot>) -> Seq<ReceiverView> {
    let order = ranking(wallet_totals(slots));
    Seq::new(wallets(slots).len(), |i: int| receiver_at(slots, order[i]))
}

/// What is known of a transaction.
pub open spec fn tx_facts(tx: Tx) -> FactsView {
    let slots = tx.slots;
    let largest = leader(slot_amounts(slots), 0);
    FactsView {
        txid: tx.txid,
        output_count: slots.len() as usize,
        unspent_count: unspent_count(slots) as usize,
        spent_count: spent_count(slots) as usize,
        tx_total_unspent_atomic: saturated(unspent_sum(slots)),
        largest_output_atomic: match largest {
            Some(i) => amount_in(slots[i]) as u64,
            None => 0,
        },
        largest_output_index: match largest {
            Some(i) => Some(i as u32),
            None => None,
        },
        largest_output_address: match largest {
            Some(i) => Some(receiver_of_slot(slots[i])),
            None => None,
        },
        outputs: slot_facts(slots),
        receiver_aggregates: ranked_receivers(slots),
    }
}

/// What each wallet gets, and in how many outputs.
struct Receivers {
    tally: Tally,
    counts: Vec<usize>,
}

impl Receivers {
    spec fn of(&self, slots: Seq<Slot>) -> bool {
        &&& self.tally.of(slots)
        &&& self.counts.len() == wallets(slots).len()
        &&& forall|p: int|
            0 <= p < wallets(slots).len() ==> #[trigger] self.counts@[p] == outputs_to(
                slots,
                wallets(slots)[p],
            )
    }

    fn new() -> (r: Receivers)
        ensures
            r.of(seq![]),
    {
        Receivers { tally: Tally::new(), counts: Vec::new() }
    }

    /// Counts one more unspent output.
    fn pay(&mut self, out: &TxOutput, name: &str, Ghost(slots): Ghost<Seq<Slot>>)
        requires
            old(self).of(slots),
            slots.len() < usize::MAX,
            name@ == key_text(out.receiver@),
        ensures
            final(self).of(slots.push(slot_of(Some(*out)))),
    {
        let ghost key = out.receiver@;
        let ghost more = slots.push(Some((out.amount, key)));
        let ghost before = self.counts@;
        let place = self.tally.pay(name, out.amount, Ghost(key), Ghost(slots));
        proof {
            lemma_payment_step(slots, out.amount, key);
            wallets_are_the_receivers(more);
            receiver_is_within_the_whole(slots, key);
            slots_are_spent_or_unspent(slots);
        }
        if place == self.counts.len() {
            self.counts.push(0);
        }
        assert(self.counts@[place as int] == outputs_to(slots, key));
        let count: usize = self.counts[place] + 1;
        self.counts.set(place, count);
        proof {
            assert forall|p: int| 0 <= p < wallets(more).len() implies #[trigger] self.counts@[p]
                == outputs_to(more, wallets(more)[p]) by {
                if p != place {
                    assert(wallets(more)[p] != key);
                    assert(wallets(more)[p] == wallets(slots)[p]);
                    assert(self.counts@[p] == before[p]);
                    assert(outputs_to(more, wallets(more)[p]) == outputs_to(
                        slots,
                        wallets(more)[p],
                    ));
                }
            }
        }
    }

    /// The receivers by what they get.
    fn ranked(&self, Ghost(slots): Ghost<Seq<Slot>>) -> (r: Vec<ReceiverAggregateFact>)
        requires
            self.of(slots),
        ensures
            receiver_facts(r@) == ranked_receivers(slots),
    {
        let order = rank_descending(&self.tally.totals);
        let mut rows: Vec<ReceiverAggregateFact> = Vec::new();
        let mut p: usize = 0;
        let ghost all = ranked_receivers(slots);
        assert(receiver_facts(rows@) =~= all.take(0));
        while p < order.len()
            invariant
                p <= order.len(),
                self.of(slots),
                all == ranked_receivers(slots),
                places(order@) == ranking(self.tally.totals@),
                ranks(
                    self.tally.totals@,
                    ranking(self.tally.totals@),
                    0,
                    self.tally.totals.len() as int,
                ),
                receiver_facts(rows@) == all.take(p as int),
            decreases order.len() - p,
        {
            assert(places(order@)[p as int] == order@[p as int]);
            let place: usize = order[p];
            let ghost before = receiver_facts(rows@);
            let row = ReceiverAggregateFact {
                address: self.tally.index.name_at(place),
                output_count: self.counts[place],
                total_atomic: self.tally.totals[place],
                total_display: format_atomic_8(self.tally.totals[place]),
            };
            let ghost said = row@;
            rows.push(row);
            proof {
                assert(said == all[p as int]);
                assert(receiver_facts(rows@) =~= before.push(said));
                assert(all.take(p + 1) =~= all.take(p as int).push(all[p as int]));
            }
            p += 1;
        }
        assert(all.take(p as int) =~= all);
        rows
    }
}

/// Collects what is known of a transaction.
pub fn build_decoded_tx_facts(txid: &str, outputs: &Vec<Option<TxOutput>>) -> (r: DecodedTxFacts)
    ensures
        r@ == tx_facts(Tx { txid: txid@, slots: slots_of(outputs@) }),
{
    let mut total: u64 = 0;
    let mut unspent: usize = 0;
    let mut spent: usize = 0;
    let mut largest: u64 = 0;
    let mut largest_index: Option<u32> = None;
    let mut largest_address: Option<String> = None;
    let mut facts: Vec<TxOutputFact> = Vec::new();
    let mut receivers = Receivers::new();
    let mut i: usize = 0;
    let ghost none: Seq<Slot> = seq![];
    let ghost mut slots: Seq<Slot> = seq![];
    proof {
        lemma_scan_ends(none, outputs@);
        assert(output_facts(facts@) =~= slot_facts(slots));
        assert(slot_amounts(slots) =~= seq![]);
    }
    while i < outputs.len()
        invariant
            i <= outputs.len(),
            slots == none + slots_of(outputs@).take(i as int),
            slots.len() == i,
            total == saturated(unspent_sum(slots)),
            unspent == unspent_count(slots),
            spent == spent_count(slots),
            receivers.of(slots),
            output_facts(facts@) == slot_facts(slots),
            match leader(slot_amounts(slots), 0) {
                Some(n) => {
                    &&& 0 <= n < slots.len()
                    &&& largest == amount_in(slots[n])
                    &&& largest_index == Some(n as u32)
                    &&& text_in(largest_address) == Some(receiver_of_slot(slots[n]))
                },
                None => largest == 0 && largest_index is None && largest_address is None,
            },
        decreases outputs.len() - i,
    {
        let ghost slot = slot_of(outputs@[i as int]);
        proof {
            lemma_next_slot(none, outputs@, i as int);
            lemma_count_step(slots, slot);
            slots_are_spent_or_unspent(slots);
            lemma_spent_step(slots);
            lemma_whole_step(slots, slot);
            lemma_leader_step(slot_amounts(slots), 0, amount_in(slot) as int);
            assert(slot_amounts(slots.push(slot)) =~= slot_amounts(slots).push(
                amount_in(slot) as int,
            ));
            assert(slots.push(slot).drop_last() =~= slots);
        }
        match &outputs[i] {
            Some(out) => {
                unspent = unspent + 1;
                total = total.saturating_add(out.amount);
                let address = out.receiver.dump_base36();
                let ghost before = output_facts(facts@);
                let fact = TxOutputFact {
                    index: i as u32,
                    address: address.clone(),
                    amount_atomic: out.amount,
                    amount_display: format_atomic_8(out.amount),
                };
                let ghost said = fact@;
                facts.push(fact);
                assert(output_facts(facts@) =~= before.push(said));
                receivers.pay(out, address.as_str(), Ghost(slots));
                if out.amount > largest {
                    largest = out.amount;
                    largest_index = Some(i as u32);
                    largest_address = Some(address);
                }
            },
            None => {
                spent = spent + 1;
                proof {
                    assert forall|p: int| 0 <= p < wallets(slots.push(slot)).len() implies
                        #[trigger] receivers.counts@[p] == outputs_to(
                        slots.push(slot),
                        wallets(slots.push(slot))[p],
                    ) by {
                        assert(outputs_to(slots.push(slot), wallets(slots)[p]) == outputs_to(
                            slots,
                            wallets(slots)[p],
                        ));
                    }
                }
            },
        }
        proof {
            slots = slots.push(slot);
        }
        i += 1;
    }
    proof {
        lemma_scan_ends(none, outputs@);
        assert(slots =~= slots_of(outputs@));
    }
    DecodedTxFacts {
        txid: txid.to_string(),
        output_count: outputs.len(),
        unspent_count: unspent,
        spent_count: spent,
        tx_total_unspent_atomic: total,
        largest_output_atomic: largest,
        largest_output_index: largest_index,
        largest_output_address: largest_address,
        outputs: facts,
        receiver_aggregates: receivers.ranked(Ghost(slots)),
    }
}

// ---------------------------------------------------------------------------
// The clock
// ---------------------------------------------------------------------------

/// A moment of the system clock.
#[verifier::external_type_specification]
#[verifier::external_body]
pub struct ExSystemTime(SystemTime);

/// `SystemTime::now` reads the system clock; nothing is claimed of what it shows.
pub assume_specification[ SystemTime::now ]() -> (r: SystemTime);

/// `SystemTime::duration_since` measures from the Unix epoch, and gives nothing for a moment
/// before it.
#[verifier::external_body]
fn since_epoch(moment: SystemTime) -> (r: Option<Duration>)
{
    moment.duration_since(UNIX_EPOCH).ok()
}

/// `Duration::as_secs` gives the whole seconds of a duration; what a duration holds is left open
/// here.
pub assume_specification[ Duration::as_secs ](duration: &Duration) -> (r: u64);

/// The time stamp of so many seconds after the Unix epoch; zero stands for a moment before it.
pub open spec fn stamp_text(seconds: Option<u64>) -> Seq<char> {
    match seconds {
        Some(n) => "unix:"@ + decimal(n as nat),
        None => "unix:0"@,
    }
}

/// Whether a text is a time stamp.
pub open spec fn is_stamp(text: Seq<char>) -> bool {
    exists|seconds: Option<u64>| text == #[trigger] stamp_text(seconds)
}

/// Renders a time stamp.
pub fn stamp(seconds: Option<u64>) -> (r: String)
    ensures
        r@ == stamp_text(seconds),
{
    match seconds {
        Some(n) => {
            let mut s = "unix:".to_string();
            s.append(decimal_text(n).as_str());
            s
        },
        None => "unix:0".to_string(),
    }
}

/// The time stamp of this moment.
pub fn now_rfc3339_like() -> (r: String)
    ensures
        is_stamp(r@),
{
    match since_epoch(SystemTime::now()) {
        Some(duration) => stamp(Some(duration.as_secs())),
        None => stamp(None),
    }
}

// ---------------------------------------------------------------------------
// Evaluation
// ---------------------------------------------------------------------------

/// What the rules are told of a transaction.
pub open spec fn rule_input(
    cfg: ScanConfig,
    db_height: u64,
    detected_at: Seq<char>,
    facts: FactsView,
) -> RuleInputView {
    RuleInputView {
        detected_at,
        network: NetworkView {
            chain: cfg.chain@,
            network_type: cfg.network_type@,
            node_id: cfg.node_id@,
            db_height,
            best_tip_hash: seq![],
        },
        block: BlockView {
            height: 0,
            hash: seq![],
            prev_hash: seq![],
            timestamp: seq![],
            tx_count: 1,
            coinbase_txid: facts.txid,
        },
        txid: facts.txid,
        output_count: facts.output_count,
        unspent_count: facts.unspent_count,
        spent_count: facts.spent_count,
        tx_total_unspent_atomic: facts.tx_total_unspent_atomic,
        largest_output_atomic: facts.largest_output_atomic,
        largest_output_index: facts.largest_output_index,
        largest_output_address: facts.largest_output_address,
        outputs: facts.outputs,
        receiver_aggregates: facts.receiver_aggregates,
    }
}

/// The events that a transaction raises at a given time.
pub open spec fn tx_events(
    cfg: ScanConfig,
    db_height: u64,
    detected_at: Seq<char>,
    tx: Tx,
) -> Seq<EventView> {
    rule_events(rule_input(cfg, db_height, detected_at, tx_facts(tx)), cfg.thresholds)
}

/// Evaluates all rules on the facts of a transaction, as detected at a given time.
pub fn evaluate_facts_at(
    cfg: &ScanConfig,
    db_height: u64,
    detected_at: String,
    facts: &DecodedTxFacts,
) -> (r: Vec<SentinelEvent>)
    ensures
        event_views(r@) == rule_events(
            rule_input(*cfg, db_height, detected_at@, facts@),
            cfg.thresholds,
        ),
{
    let network = SentinelNetworkContext {
        chain: cfg.chain.clone(),
        network_type: cfg.network_type.clone(),
        node_id: cfg.node_id.clone(),
        db_height,
        best_tip_hash: String::new(),
    };
    let block = SentinelBlockContext {
        height: 0,
        hash: String::new(),
        prev_hash: String::new(),
        timestamp: String::new(),
        tx_count: 1,
        coinbase_txid: facts.txid.clone(),
    };
    proof {
        assert(network.best_tip_hash@ =~= seq![]);
        assert(block.hash@ =~= seq![]);
        assert(block.prev_hash@ =~= seq![]);
        assert(block.timestamp@ =~= seq![]);
    }
    let outputs = facts.outputs.clone();
    let receiver_aggregates = facts.receiver_aggregates.clone();
    proof {
        assert(output_facts(outputs@) =~= output_facts(facts.outputs@));
        assert(receiver_facts(receiver_aggregates@) =~= receiver_facts(
            facts.receiver_aggregates@,
        ));
    }
    let input = TxRuleInput {
        detected_at,
        network,
        block,
        txid: facts.txid.clone(),
        output_count: facts.output_count,
        unspent_count: facts.unspent_count,
        spent_count: facts.spent_count,
        tx_total_unspent_atomic: facts.tx_total_unspent_atomic,
        largest_output_atomic: facts.largest_output_atomic,
        largest_output_index: facts.largest_output_index,
        largest_output_address: facts.largest_output_address.clone(),
        outputs,
        receiver_aggregates,
    };
    let found = evaluate_all_tx_rules(&input, &cfg.thresholds);
    let ghost all = match_views(found.matches@);
    let mut events: Vec<SentinelEvent> = Vec::new();
    assert(event_views(events@) =~= all.take(0));
    for m in it: found.matches
        invariant
            it.seq() == found.matches@,
            all == match_views(found.matches@),
            event_views(events@) == all.take(it.index()),
    {
        let ghost done = event_views(events@);
        let ghost said = m.event@;
        events.push(m.event);
        proof {
            assert(event_views(events@) =~= done.push(said));
            assert(all.take(it.index() + 1) =~= all.take(it.index()).push(all[it.index()]));
        }
    }
    assert(all.take(all.len() as int) =~= all);
    events
}

/// Evaluates all rules on the facts of a transaction, as detected now.
pub fn evaluate_decoded_facts(cfg: &ScanConfig, db: &Snapshot, facts: &DecodedTxFacts) -> (r: Vec<
    SentinelEvent,
>)
    ensures
        exists|at: Seq<char>|
            is_stamp(at) && event_views(r@) == rule_events(
                #[trigger] rule_input(*cfg, db@.len, at, facts@),
                cfg.thresholds,
            ),
{
    let detected_at = now_rfc3339_like();
    let ghost at = detected_at@;
    let events = evaluate_facts_at(cfg, db.len, detected_at, facts);
    proof {
        let input = rule_input(*cfg, db@.len, at, facts@);
        assert(event_views(events@) == rule_events(input, cfg.thresholds));
    }
    events
}

// ---------------------------------------------------------------------------
// Scans
// ---------------------------------------------------------------------------

/// The events of one transaction.
#[derive(Debug, Clone, Default)]
pub struct TxScanResult {
    pub txid: String,
    pub matched_events: Vec<SentinelEvent>,
}

/// The events of a range of transactions.
#[derive(Debug, Clone, Default)]
pub struct RangeScanResult {
    pub start_height: u64,
    pub end_height: u64,
    pub scanned_blocks: u64,
    pub matched_events: Vec<SentinelEvent>,
}

/// The events of the transaction at a position.
#[derive(Debug, Clone, Default)]
pub struct BlockScanResult {
    pub height: u64,
    pub matched_events: Vec<SentinelEvent>,
}

/// The events that transactions raise, each at its own time.
pub open spec fn scan_events(
    cfg: ScanConfig,
    db_height: u64,
    stamps: Seq<Seq<char>>,
    txs: Seq<Tx>,
) -> Seq<EventView>
    decreases txs.len(),
{
    if txs.len() == 0 {
        seq![]
    } else {
        scan_events(cfg, db_height, stamps.drop_last(), txs.drop_last()) + tx_events(
            cfg,
            db_height,
            stamps.last(),
            txs.last(),
        )
    }
}

/// Whether there is a time stamp for each of `n` transactions.
pub open spec fn are_stamps(stamps: Seq<Seq<char>>, n: nat) -> bool {
    stamps.len() == n && forall|i: int| 0 <= i < n ==> is_stamp(#[trigger] stamps[i])
}

/// Whether the events are those of the transactions, at whatever times they were looked at.
pub open spec fn are_events_of(
    cfg: ScanConfig,
    db_height: u64,
    txs: Seq<Tx>,
    events: Seq<EventView>,
) -> bool {
    exists|stamps: Seq<Seq<char>>|
        are_stamps(stamps, txs.len()) && events == #[trigger] scan_events(
            cfg,
            db_height,
            stamps,
            txs,
        )
}

/// Evaluates all rules on one transaction of the store.
fn scan_tx(db: &Snapshot, cfg: &ScanConfig, tx: &TxEntry) -> (r: Vec<SentinelEvent>)
    ensures
        exists|at: Seq<char>|
            is_stamp(at) && event_views(r@) == #[trigger] tx_events(*cfg, db@.len, at, tx@),
{
    let facts = build_decoded_tx_facts(tx.txid.as_str(), &tx.outputs);
    let events = evaluate_decoded_facts(cfg, db, &facts);
    proof {
        let at = choose|at: Seq<char>|
            is_stamp(at) && event_views(events@) == rule_events(
                #[trigger] rule_input(*cfg, db@.len, at, facts@),
                cfg.thresholds,
            );
        assert(event_views(events@) == tx_events(*cfg, db@.len, at, tx@));
    }
    events
}

/// Evaluates all rules on the transactions from `from` up to `to`.
fn scan_entries(db: &Snapshot, cfg: &ScanConfig, txs: &Vec<TxEntry>, from: usize, to: usize) -> (r:
    Vec<SentinelEvent>)
    requires
        from <= to <= txs.len(),
    ensures
        are_events_of(
            *cfg,
            db@.len,
            txs_of(txs@).subrange(from as int, to as int),
            event_views(r@),
        ),
{
    let mut out: Vec<SentinelEvent> = Vec::new();
    let mut i: usize = from;
    let ghost all = txs_of(txs@);
    let ghost mut stamps: Seq<Seq<char>> = seq![];
    proof {
        assert(all.subrange(from as int, from as int) =~= seq![]);
        assert(event_views(out@) =~= seq![]);
    }
    while i < to
        invariant
            from <= i <= to <= txs.len(),
            all == txs_of(txs@),
            are_stamps(stamps, (i - from) as nat),
            event_views(out@) == scan_events(
                *cfg,
                db@.len,
                stamps,
                all.subrange(from as int, i as int),
            ),
        decreases to - i,
    {
        let mut events = scan_tx(db, cfg, &txs[i]);
        let ghost at = choose|at: Seq<char>|
            is_stamp(at) && event_views(events@) == #[trigger] tx_events(
                *cfg,
                db@.len,
                at,
                txs@[i as int]@,
            );
        let ghost before = event_views(out@);
        let ghost found = event_views(events@);
        out.append(&mut events);
        proof {
            let more = all.subrange(from as int, i + 1);
            assert(more.drop_last() =~= all.subrange(from as int, i as int));
            assert(more.last() == txs@[i as int]@);
            assert(stamps.push(at).drop_last() =~= stamps);
            assert(event_views(out@) =~= before + found);
            stamps = stamps.push(at);
        }
        i += 1;
    }
    out
}

/// Scans the transaction at a position; behind the last one there is nothing to find.
pub fn scan_block(db: &Snapshot, cfg: &ScanConfig, height: u64) -> (r: Result<
    BlockScanResult,
    ReadFault,
>)
    ensures
        match r {
            Ok(found) => {
                let txs = valid_txs(db@.entries);
                let at = height as usize;
                &&& db@.fault is None
                &&& found.height == height
                &&& are_events_of(
                    *cfg,
                    db@.len,
                    if at < txs.len() {
                        txs.subrange(at as int, at + 1)
                    } else {
                        seq![]
                    },
                    event_views(found.matched_events@),
                )
            },
            Err(e) => db@.fault == Some(e.text@),
        },
{
    let txs = collect_valid_tx_entries(db)?;
    let at: usize = height as usize;
    if at >= txs.len() {
        let matched_events = scan_entries(db, cfg, &txs, 0, 0);
        assert(txs_of(txs@).subrange(0, 0) =~= seq![]);
        return Ok(BlockScanResult { height, matched_events });
    }
    let matched_events = scan_entries(db, cfg, &txs, at, at + 1);
    Ok(BlockScanResult { height, matched_events })
}

/// The positions that a scan from `start` to `end` reaches among `len` transactions: from the
/// first up to, but without, the second.
pub open spec fn reached_range(start: u64, end: u64, len: nat) -> (int, int) {
    let from = start as usize;
    let last = end as usize;
    if end < start || last < from || from >= len {
        (0, 0)
    } else if last < len {
        (from as int, last + 1)
    } else {
        (from as int, len as int)
    }
}

/// Scans the transactions at the positions from `start_height` to `end_height`, both included, as
/// far as there are any.
pub fn scan_range(db: &Snapshot, cfg: &ScanConfig, start_height: u64, end_height: u64) -> (r: Result<
    RangeScanResult,
    ReadFault,
>)
    ensures
        match r {
            Ok(found) => {
                let txs = valid_txs(db@.entries);
                let (from, to) = reached_range(start_height, end_height, txs.len());
                &&& db@.fault is None
                &&& found.start_height == start_height
                &&& found.end_height == end_height
                &&& found.scanned_blocks == to - from
                &&& are_events_of(
                    *cfg,
                    db@.len,
                    txs.subrange(from, to),
                    event_views(found.matched_events@),
                )
            },
            Err(e) => db@.fault == Some(e.text@),
        },
{
    let txs = collect_valid_tx_entries(db)?;
    assert(txs_of(txs@).len() == txs@.len());
    let from: usize = start_height as usize;
    let last: usize = end_height as usize;
    let (from, to): (usize, usize) = if end_height < start_height || last < from || from
        >= txs.len() {
        (0, 0)
    } else if last < txs.len() {
        (from, last + 1)
    } else {
        (from, txs.len())
    };
    let matched_events = scan_entries(db, cfg, &txs, from, to);
    Ok(RangeScanResult { start_height, end_height, scanned_blocks: (to - from) as u64, matched_events })
}

/// Scans all transactions of the store.
pub fn scan_all_txs(db: &Snapshot, cfg: &ScanConfig) -> (r: Result<Vec<SentinelEvent>, ReadFault>)
    ensures
        match r {
            Ok(events) => db@.fault is None && are_events_of(
                *cfg,
                db@.len,
                valid_txs(db@.entries),
                event_views(events@),
            ),
            Err(e) => db@.fault == Some(e.text@),
        },
{
    let txs = collect_valid_tx_entries(db)?;
    let events = scan_entries(db, cfg, &txs, 0, txs.len());
    assert(txs_of(txs@).subrange(0, txs@.len() as int) =~= txs_of(txs@));
    Ok(events)
}

} // verus!
