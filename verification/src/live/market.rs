//! What the owner makes of the market: a break of the stream, a tick, and the rows that a tick
//! yields.

use crate::live::due::{ended_by, take_due};
use crate::live::deployment::Mode;
use crate::live::entries::{after_veto, Vetoes, CONTINUITY, WARMUP};
use crate::live::finance::{Decimal, Direction};
use crate::live::journal::RecordKind;
use crate::live::owner::{fails_replay, note_failure};
use crate::live::receipt::{Binding, RiskPolicy};
use crate::live::rows::{
    all_warm, base_rows_ready, binding_names, bound_rows, deciding, follows_plan, indices,
    instrument_ready, is_fresh, latest_close, of_instruments, pending, prune_rows, requests,
    row_views, rows_fit, seconds_of, select_rows, sources_bound, strategies_bound, whole_seconds,
    Observation, PendingRows, ProducedRow, Row, Strategy, StreamColumns, StreamPlan, Warmth,
};
use crate::live::workers::{MarketTick, ProposalRequest};
use crate::search::{first_where, first_where_absent, first_where_found};
use crate::table::{in_order, Table};
use crate::text::{refusal, same_text, text_of, views};
use vstd::prelude::*;
use vstd::string::*;

verus! {

/// What the owner keeps of the market.
#[derive(Debug)]
pub struct Feed {
    pub warmth: Warmth,
    pub connection_generation: u64,
    pub receipt_sequence: u64,
    pub last_provider_time: Option<i64>,
    /// The instrument and expiry of each command whose contract runs.
    pub due: Table<(usize, i64)>,
    /// The rows that wait for proposals.
    pub pending: Vec<PendingRows>,
    /// The bindings whose proposals are under way.
    pub asked: Table<()>,
}

/// An instrument of the deployment, with the scale of its prices.
#[derive(Debug)]
pub struct BoundInstrument {
    pub instrument: String,
    pub scale: u8,
}

/// One thing that the owner does about the market.
#[allow(inconsistent_fields)]
#[derive(Debug)]
pub enum MarketAction {
    /// The expected connection counts up to this generation.
    Reconnect(u64),
    /// The journal records something.
    Record(RecordKind),
    /// The market worker subscribes to an instrument.
    Subscribe { instrument: String, scale: u8 },
    /// The engine is told a tick of an instrument.
    Tick { instrument: usize, provider_time_micros: i64, price_units: i64 },
    /// A proposal is requested.
    Ask(ProposalRequest),
    /// The rows that wait are looked at.
    RowsReady,
    /// The compatibility of the run is assessed anew.
    Compatibility,
}

/// Whether an instrument is subscribed to.
pub open spec fn subscribes_to(action: MarketAction, bound: BoundInstrument) -> bool {
    action matches MarketAction::Subscribe { instrument, scale } && instrument@
        == bound.instrument@ && scale == bound.scale
}

/// The stream of observations broke. Every instrument is cold again, the break is recorded with
/// its reason, and unless the run drains each bound instrument is subscribed to again, in order.
pub fn market_break(
    feed: &mut Feed,
    vetoes: &mut Vetoes,
    generation: u64,
    reason: String,
    instruments: &Vec<BoundInstrument>,
    draining: bool,
) -> (actions: Vec<MarketAction>)
    ensures
        *final(feed) == (Feed { warmth: final(feed).warmth, ..*old(feed) }),
        final(feed).warmth.warm@ == Seq::new(old(feed).warmth.warm@.len(), |i: int| false),
        final(vetoes)@ == after_veto(after_veto(old(vetoes)@, CONTINUITY@, true), WARMUP@, true),
        actions@.len() == (if draining {
            2
        } else {
            2 + instruments@.len()
        }),
        actions@[0] == MarketAction::Reconnect(generation),
        actions@[1] == MarketAction::Record(RecordKind::Discontinuity { reason }),
        !draining ==> forall|i: int|
            0 <= i < instruments@.len() ==> subscribes_to(
                actions@[2 + i],
                #[trigger] instruments@[i],
            ),
{
    feed.warmth.broken(vetoes);
    let mut actions: Vec<MarketAction> = Vec::new();
    actions.push(MarketAction::Reconnect(generation));
    actions.push(MarketAction::Record(RecordKind::Discontinuity { reason }));
    if !draining {
        let mut i: usize = 0;
        while i < instruments.len()
            invariant
                i <= instruments@.len(),
                actions@.len() == 2 + i,
                actions@[0] == MarketAction::Reconnect(generation),
                actions@[1] == MarketAction::Record(RecordKind::Discontinuity { reason }),
                forall|j: int|
                    0 <= j < i ==> subscribes_to(actions@[2 + j], #[trigger] instruments@[j]),
            decreases instruments@.len() - i,
        {
            actions.push(
                MarketAction::Subscribe {
                    instrument: instruments[i].instrument.clone(),
                    scale: instruments[i].scale,
                },
            );
            i = i + 1;
        }
    }
    actions
}

/// After a break no entry is made: both the break and the warmup veto entries, and entries are
/// enabled only where nothing vetoes them.
pub proof fn a_break_disables_entries(before: Set<Seq<char>>)
    ensures
        ({
            let after = after_veto(after_veto(before, CONTINUITY@, true), WARMUP@, true);
            &&& after.contains(CONTINUITY@) && after.contains(WARMUP@)
            &&& after != Set::<Seq<char>>::empty()
        }),
{
    let after = after_veto(after_veto(before, CONTINUITY@, true), WARMUP@, true);
    assert(after.contains(WARMUP@));
}

/// Where an instrument is bound.
pub open spec fn instrument_at(instruments: Seq<BoundInstrument>, name: Seq<char>) -> Option<int> {
    first_where(instruments, is_instrument(name))
}

/// Whether a bound instrument has this name.
pub open spec fn is_instrument(name: Seq<char>) -> spec_fn(BoundInstrument) -> bool {
    |bound: BoundInstrument| bound.instrument@ == name
}

/// A tick was received. `accepted` says whether it continues the stream: one that does not breaks
/// continuity, and a recorded run fails by it. One that does is that of the bound instrument
/// whose index is returned.
pub fn market_tick(
    feed: &mut Feed,
    vetoes: &mut Vetoes,
    failure: &mut Option<String>,
    mode: Mode,
    tick: &MarketTick,
    accepted: Result<(), String>,
    instruments: &Vec<BoundInstrument>,
) -> (instrument: Result<Option<usize>, String>)
    ensures
        match accepted {
            Err(error) => {
                &&& instrument matches Ok(None)
                &&& *final(feed) == *old(feed)
                &&& final(vetoes)@ == after_veto(old(vetoes)@, CONTINUITY@, true)
                &&& text_of(*final(failure)) == (if fails_replay(mode, false) && *old(
                    failure,
                ) is None {
                    Some(error@)
                } else {
                    text_of(*old(failure))
                })
            },
            Ok(_) => {
                &&& *final(feed) == (Feed {
                    connection_generation: tick.generation,
                    receipt_sequence: tick.sequence,
                    last_provider_time: Some(tick.provider_time_micros),
                    ..*old(feed)
                })
                &&& final(vetoes)@ == old(vetoes)@
                &&& *final(failure) == *old(failure)
                &&& match instrument_at(instruments@, tick.instrument@) {
                    Some(at) => instrument matches Ok(Some(found)) && found == at && at
                        < instruments@.len(),
                    None => refusal(instrument) == Some("live: unbound market instrument"@),
                }
            },
        },
{
    if let Err(error) = accepted {
        vetoes.set(CONTINUITY, true);
        note_failure(failure, mode, false, error.as_str());
        return Ok(None);
    }
    feed.connection_generation = tick.generation;
    feed.receipt_sequence = tick.sequence;
    feed.last_provider_time = Some(tick.provider_time_micros);
    let ghost wanted = is_instrument(tick.instrument@);
    let mut i: usize = 0;
    while i < instruments.len()
        invariant
            i <= instruments@.len(),
            accepted is Ok,
            wanted == is_instrument(tick.instrument@),
            forall|j: int| 0 <= j < i ==> !wanted(#[trigger] instruments@[j]),
            *feed == (Feed {
                connection_generation: tick.generation,
                receipt_sequence: tick.sequence,
                last_provider_time: Some(tick.provider_time_micros),
                ..*old(feed)
            }),
            vetoes@ == old(vetoes)@,
            *failure == *old(failure),
        decreases instruments@.len() - i,
    {
        if same_text(instruments[i].instrument.as_str(), tick.instrument.as_str()) {
            proof {
                first_where_found(instruments@, wanted, i as int);
            }
            return Ok(Some(i));
        }
        i = i + 1;
    }
    proof {
        first_where_absent(instruments@, wanted);
    }
    Err("live: unbound market instrument".to_owned())
}

/// What a proposal of a contract is requested with.
#[derive(Debug)]
pub struct ProposalTerms {
    pub id: String,
    pub direction: Direction,
    pub duration_micros: i64,
    pub stake: Decimal,
    pub currency: String,
    pub semantics: String,
    pub settlement: String,
}

/// Whether terms have this name.
pub open spec fn is_contract(id: Seq<char>) -> spec_fn(ProposalTerms) -> bool {
    |terms: ProposalTerms| terms.id@ == id
}

/// The terms that a binding's proposals are requested with.
pub open spec fn requested_terms(terms: Seq<ProposalTerms>, binding: Binding) -> Option<int> {
    first_where(terms, is_contract(binding.contract@))
}

/// Whether every binding names a contract.
pub open spec fn contracts_bound(terms: Seq<ProposalTerms>, bindings: Seq<Binding>) -> bool {
    forall|i: int|
        0 <= i < bindings.len() ==> requested_terms(terms, #[trigger] bindings[i]) is Some
}

/// Whether a request asks for a proposal of a binding.
pub open spec fn asks_for_binding(
    request: ProposalRequest,
    binding: Binding,
    bound: BoundInstrument,
    terms: ProposalTerms,
) -> bool {
    &&& request.binding@ == binding.id@
    &&& request.instrument@ == bound.instrument@
    &&& request.scale == bound.scale
    &&& request.direction == terms.direction
    &&& seconds_of(terms.duration_micros) == Some(request.duration_seconds)
    &&& request.stake == terms.stake
    &&& request.currency@ == terms.currency@
    &&& request.semantics@ == terms.semantics@
    &&& request.settlement@ == terms.settlement@
}

/// The request of a binding's proposal.
pub fn proposal_request(binding: &Binding, bound: &BoundInstrument, terms: &Vec<ProposalTerms>) -> (
request: Result<ProposalRequest, String>)
    requires
        requested_terms(terms@, *binding) is Some,
    ensures
        ({
            let asked = terms@[requested_terms(terms@, *binding)->0];
            match seconds_of(asked.duration_micros) {
                None => refusal(request) == Some("live: duration does not fit seconds"@),
                Some(_) => request matches Ok(request) && asks_for_binding(
                    request,
                    *binding,
                    *bound,
                    asked,
                ),
            }
        }),
{
    let ghost wanted = is_contract(binding.contract@);
    let mut i: usize = 0;
    while i < terms.len()
        invariant
            i <= terms@.len(),
            wanted == is_contract(binding.contract@),
            requested_terms(terms@, *binding) is Some,
            forall|j: int| 0 <= j < i ==> !wanted(#[trigger] terms@[j]),
        decreases terms@.len() - i,
    {
        if same_text(terms[i].id.as_str(), binding.contract.as_str()) {
            proof {
                first_where_found(terms@, wanted, i as int);
            }
            let asked = &terms[i];
            return match whole_seconds(asked.duration_micros) {
                Some(duration_seconds) => Ok(
                    ProposalRequest {
                        binding: binding.id.clone(),
                        instrument: bound.instrument.clone(),
                        scale: bound.scale,
                        direction: asked.direction,
                        duration_seconds,
                        stake: asked.stake,
                        currency: asked.currency.clone(),
                        semantics: asked.semantics.clone(),
                        settlement: asked.settlement.clone(),
                    },
                ),
                None => Err("live: duration does not fit seconds".to_owned()),
            };
        }
        i = i + 1;
    }
    proof {
        first_where_absent(terms@, wanted);
    }
    Err("live: duration does not fit seconds".to_owned())
}

/// What the rows of one instrument are decided by: what its plan yields, the columns that are
/// bound, and the strategies, bindings, risk policies and contracts of the deployment.
#[derive(Debug)]
pub struct Deciding<'a> {
    pub plan: &'a Vec<StreamPlan>,
    pub columns: &'a Vec<StreamColumns>,
    pub strategies: &'a Vec<Strategy>,
    pub bindings: &'a Vec<Binding>,
    pub risks: &'a Vec<RiskPolicy>,
    pub terms: &'a Vec<ProposalTerms>,
    pub instruments: &'a Vec<BoundInstrument>,
    /// The names of the instruments, in the same order.
    pub names: &'a Vec<String>,
    pub draining: bool,
    pub now: i64,
}

impl<'a> Deciding<'a> {
    /// What the deployment was validated for: every bound column is yielded, and every binding
    /// names a strategy and a contract.
    pub open spec fn valid(&self) -> bool {
        &&& sources_bound(self.plan@, self.columns@)
        &&& strategies_bound(self.strategies@, self.bindings@)
        &&& contracts_bound(self.terms@, self.bindings@)
        &&& self.instruments@.len() == self.names@.len()
    }

    /// The bindings of an instrument that decide on rows, by their indices.
    pub open spec fn deciders(&self, rows: Seq<Row>, instrument: int) -> Seq<int> {
        deciding(
            self.strategies@,
            self.columns@,
            rows,
            self.bindings@,
            self.instruments@[instrument].instrument@,
            self.bindings@.len(),
        )
    }

    /// Whether the proposals of some bindings can be requested.
    pub open spec fn all_fit(&self, list: Seq<int>) -> bool {
        forall|i: int|
            0 <= i < list.len() ==> seconds_of(
                self.terms@[requested_terms(
                    self.terms@,
                    self.bindings@[#[trigger] list[i]],
                )->0].duration_micros,
            ) is Some
    }

    /// The bindings whose proposals rows wait for; a run that drains waits for none.
    pub open spec fn awaited(&self, list: Seq<int>) -> Set<Seq<char>> {
        if self.draining {
            Set::empty()
        } else {
            names_of(self.bindings@, list)
        }
    }

    /// Whether a request is that of a binding.
    pub open spec fn is_asked(
        &self,
        request: ProposalRequest,
        binding: int,
        instrument: int,
    ) -> bool {
        asks_for_binding(
            request,
            self.bindings@[binding],
            self.instruments@[instrument],
            self.terms@[requested_terms(self.terms@, self.bindings@[binding])->0],
        )
    }

    fn build_requests(&self, list: &Vec<usize>, instrument: usize) -> (built: Result<
        Vec<ProposalRequest>,
        String,
    >)
        requires
            self.valid(),
            instrument < self.instruments@.len(),
            forall|i: int| 0 <= i < list@.len() ==> #[trigger] list@[i] < self.bindings@.len(),
        ensures
            refusal(built) == (if self.all_fit(indices(list@)) {
                None
            } else {
                Some("live: duration does not fit seconds"@)
            }),
            built matches Ok(built) ==> built@.len() == list@.len() && forall|i: int|
                0 <= i < list@.len() ==> self.is_asked(
                    #[trigger] built@[i],
                    list@[i] as int,
                    instrument as int,
                ),
    {
        let ghost all = indices(list@);
        let mut built: Vec<ProposalRequest> = Vec::new();
        let mut i: usize = 0;
        while i < list.len()
            invariant
                i <= list@.len(),
                self.valid(),
                instrument < self.instruments@.len(),
                all == indices(list@),
                forall|j: int| 0 <= j < list@.len() ==> #[trigger] list@[j] < self.bindings@.len(),
                built@.len() == i,
                forall|j: int|
                    0 <= j < i ==> self.is_asked(
                        #[trigger] built@[j],
                        list@[j] as int,
                        instrument as int,
                    ),
                forall|j: int|
                    0 <= j < i ==> seconds_of(
                        self.terms@[requested_terms(
                            self.terms@,
                            self.bindings@[#[trigger] all[j]],
                        )->0].duration_micros,
                    ) is Some,
            decreases list@.len() - i,
        {
            let at: usize = list[i];
            assert(all[i as int] == at);
            assert(requested_terms(self.terms@, self.bindings@[at as int]) is Some);
            match proposal_request(&self.bindings[at], &self.instruments[instrument], self.terms) {
                Ok(request) => {
                    built.push(request);
                },
                Err(error) => {
                    assert(!self.all_fit(all));
                    return Err(error);
                },
            }
            i = i + 1;
        }
        Ok(built)
    }
}

/// Whether a proposal is requested anew: none of the binding is under way, and the binding does
/// not stand earlier in the list.
pub open spec fn is_new_ask(
    bindings: Seq<Binding>,
    list: Seq<int>,
    asked: Set<Seq<char>>,
    k: int,
) -> bool {
    &&& !asked.contains(bindings[list[k]].id@)
    &&& forall|j: int| 0 <= j < k ==> bindings[#[trigger] list[j]].id@ != bindings[list[k]].id@
}

/// The bindings, by their indices, whose proposals the first `count` of a list request anew.
pub open spec fn new_asks(
    bindings: Seq<Binding>,
    list: Seq<int>,
    asked: Set<Seq<char>>,
    count: nat,
) -> Seq<int>
    decreases count,
{
    if count == 0 {
        Seq::empty()
    } else {
        let before = new_asks(bindings, list, asked, (count - 1) as nat);
        if is_new_ask(bindings, list, asked, count - 1) {
            before.push(list[count - 1])
        } else {
            before
        }
    }
}

/// Whether the journal records the tick that ended a contract.
pub open spec fn records_due(action: MarketAction, command: Seq<char>, tick: MarketTick) -> bool {
    action matches MarketAction::Record(
        RecordKind::DueTick { command: named, provider_time_micros, price_units },
    ) && named@ == command && provider_time_micros == tick.provider_time_micros && price_units
        == tick.price_units
}

/// Whether rows wait as they were taken.
pub open spec fn waits(
    waiting: PendingRows,
    rows: Seq<Row>,
    instrument: usize,
    bindings: Set<Seq<char>>,
    receipt_micros: i64,
) -> bool {
    &&& waiting.instrument == instrument
    &&& waiting.close_micros == latest_close(rows)
    &&& waiting.receipt_micros == receipt_micros
    &&& waiting.bindings@.dom() == bindings
    &&& waiting.observations@.len() == rows.len()
    &&& forall|i: int|
        0 <= i < rows.len() ==> #[trigger] waiting.observations@[i] == (Observation::Row {
            instrument,
            row: rows[i],
        })
}

/// The names of the bindings that decide on rows.
pub open spec fn names_of(bindings: Seq<Binding>, list: Seq<int>) -> Set<Seq<char>> {
    Set::new(
        |name: Seq<char>|
            exists|i: int| 0 <= i < list.len() && bindings[#[trigger] list[i]].id@ == name,
    )
}

/// What a tick and the rows that it yields leave of the feed.
pub open spec fn feed_after(
    before: Feed,
    after: Feed,
    by: Deciding<'_>,
    rows: Seq<Row>,
    instrument: usize,
    tick: MarketTick,
) -> bool {
    let list = by.deciders(rows, instrument as int);
    let ready = instrument_ready(
        by.strategies@,
        by.columns@,
        rows,
        by.bindings@,
        by.instruments@[instrument as int].instrument@,
    );
    let ended = ended_by(before.due@, instrument, tick.provider_time_micros);
    &&& after.warmth.warm@ == (if ready {
        before.warmth.warm@.update(instrument as int, true)
    } else {
        before.warmth.warm@
    })
    &&& after.connection_generation == before.connection_generation
    &&& after.receipt_sequence == before.receipt_sequence
    &&& after.last_provider_time == before.last_provider_time
    &&& after.due@ == before.due@.remove_keys(ended)
    &&& if rows.len() == 0 {
        after.pending@ == before.pending@ && after.asked@ == before.asked@
    } else {
        &&& after.asked@.dom() == before.asked@.dom().union(names_of(by.bindings@, list))
        &&& exists|waiting: PendingRows| #[trigger]
            waits(
                waiting,
                rows,
                instrument,
                by.awaited(list),
                tick.receipt_micros,
            ) && after.pending@ == before.pending@.push(waiting).filter(
                |rows: PendingRows|
                    is_fresh(rows, by.names@, by.bindings@, by.risks@, by.now),
            )
    }
}

/// The bindings whose proposals are requested anew, by their indices.
pub open spec fn asks_of(
    before: Feed,
    by: Deciding<'_>,
    rows: Seq<Row>,
    instrument: usize,
) -> Seq<int> {
    let list = by.deciders(rows, instrument as int);
    if rows.len() == 0 {
        Seq::empty()
    } else {
        new_asks(by.bindings@, list, before.asked@.dom(), list.len())
    }
}

/// Whether proposals of bindings are requested, in order, from an action on.
pub open spec fn asks_from(
    actions: Seq<MarketAction>,
    from: int,
    asks: Seq<int>,
    by: Deciding<'_>,
    instrument: usize,
) -> bool {
    forall|i: int|
        0 <= i < asks.len() ==> is_ask(actions[from + i], #[trigger] asks[i], by, instrument)
}

/// Whether the proposal of a binding is requested.
pub open spec fn is_ask(
    action: MarketAction,
    binding: int,
    by: Deciding<'_>,
    instrument: usize,
) -> bool {
    action matches MarketAction::Ask(request) && by.is_asked(request, binding, instrument as int)
}

/// What is done about a tick and the rows that it yields, in order: the ticks that end contracts
/// are recorded, the engine is told, the proposals of the bindings that decide on the rows are
/// requested unless they are under way, the rows that wait are looked at, and where a contract
/// ended the run's compatibility is assessed.
pub open spec fn acts_on(
    actions: Seq<MarketAction>,
    before: Feed,
    by: Deciding<'_>,
    rows: Seq<Row>,
    instrument: usize,
    tick: MarketTick,
) -> bool {
    let ended = in_order(ended_by(before.due@, instrument, tick.provider_time_micros));
    let asks = asks_of(before, by, rows, instrument);
    let looked: int = if rows.len() == 0 {
        0
    } else {
        1
    };
    let assessed: int = if ended.len() == 0 {
        0
    } else {
        1
    };
    let d = ended.len() as int;
    let a = asks.len() as int;
    &&& actions.len() == d + 1 + a + looked + assessed
    &&& forall|i: int| 0 <= i < d ==> records_due(#[trigger] actions[i], ended[i], tick)
    &&& actions[d] == (MarketAction::Tick {
        instrument,
        provider_time_micros: tick.provider_time_micros,
        price_units: tick.price_units,
    })
    &&& asks_from(actions, d + 1, asks, by, instrument)
    &&& looked == 1 ==> actions[d + 1 + a] is RowsReady
    &&& assessed == 1 ==> actions.last() is Compatibility
}

/// A tick was handed to the features of its instrument, and `produced` is what they made of it:
/// the rows that it yields, or why the stream cannot go on. Rows of bound streams are decided on
/// once their proposals are there.
pub fn market_rows(
    feed: &mut Feed,
    vetoes: &mut Vetoes,
    failure: &mut Option<String>,
    mode: Mode,
    tick: &MarketTick,
    instrument: usize,
    produced: Result<Vec<ProducedRow>, String>,
    by: &Deciding<'_>,
) -> (actions: Result<Vec<MarketAction>, String>)
    requires
        by.valid(),
        instrument < by.instruments@.len(),
        instrument < old(feed).warmth.warm@.len(),
        of_instruments(old(feed).pending@, by.names@),
        produced matches Ok(produced) ==> follows_plan(by.plan@, produced@),
    ensures
        match produced {
            Err(error) => {
                &&& actions matches Ok(actions) && actions@.len() == 0
                &&& *final(feed) == *old(feed)
                &&& final(vetoes)@ == after_veto(old(vetoes)@, CONTINUITY@, true)
                &&& text_of(*final(failure)) == (if fails_replay(mode, false) && *old(
                    failure,
                ) is None {
                    Some(error@)
                } else {
                    text_of(*old(failure))
                })
            },
            Ok(produced) => {
                &&& *final(failure) == *old(failure)
                &&& exists|rows: Seq<Row>| #[trigger]
                    row_views(rows) == bound_rows(
                        by.plan@,
                        by.columns@,
                        produced@,
                        tick.receipt_micros,
                        produced@.len(),
                    ) && (if !by.all_fit(by.deciders(rows, instrument as int)) {
                        &&& refusal(actions) == Some("live: duration does not fit seconds"@)
                        &&& *final(feed) == *old(feed)
                        &&& final(vetoes)@ == old(vetoes)@
                    } else {
                        &&& actions matches Ok(actions)
                        &&& acts_on(actions@, *old(feed), *by, rows, instrument, *tick)
                        &&& feed_after(
                            *old(feed),
                            *final(feed),
                            *by,
                            rows,
                            instrument,
                            *tick,
                        )
                        &&& of_instruments(final(feed).pending@, by.names@)
                        &&& final(vetoes)@ == ({
                            let complete = all_warm(final(feed).warmth.warm@);
                            let warmed = after_veto(old(vetoes)@, WARMUP@, !complete);
                            if complete {
                                after_veto(warmed, CONTINUITY@, false)
                            } else {
                                warmed
                            }
                        })
                    })
            },
        },
{
    let produced = match produced {
        Ok(produced) => produced,
        Err(error) => {
            vetoes.set(CONTINUITY, true);
            note_failure(failure, mode, false, error.as_str());
            let none: Vec<MarketAction> = Vec::new();
            return Ok(none);
        },
    };
    let rows = select_rows(by.plan, by.columns, &produced, tick.receipt_micros);
    let ghost taken = rows@;
    assert(rows_fit(by.columns@, rows@));
    let name = by.instruments[instrument].instrument.as_str();
    let list = requests(by.strategies, by.columns, &rows, by.bindings, name);
    proof {
        deciders_are_bindings(
            by.strategies@,
            by.columns@,
            taken,
            by.bindings@,
            name@,
            by.bindings@.len(),
        );
        assert forall|i: int| 0 <= i < list@.len() implies #[trigger] list@[i]
            < by.bindings@.len() by {
            assert(indices(list@)[i] == list@[i]);
        }
    }
    let built = match by.build_requests(&list, instrument) {
        Ok(built) => built,
        Err(error) => {
            assert(row_views(taken) == bound_rows(
                by.plan@,
                by.columns@,
                produced@,
                tick.receipt_micros,
                produced@.len(),
            ));
            return Err(error);
        },
    };
    let ready: bool = base_rows_ready(by.strategies, by.columns, &rows, by.bindings, name);
    feed.warmth.observed(vetoes, instrument, ready);
    let ended = take_due(&mut feed.due, instrument, tick.provider_time_micros);
    let has_due: bool = ended.len() > 0;
    let mut actions: Vec<MarketAction> = due_records(&ended, tick);
    actions.push(
        MarketAction::Tick {
            instrument,
            provider_time_micros: tick.provider_time_micros,
            price_units: tick.price_units,
        },
    );
    let ghost head = actions@;
    let ghost mut asked: Seq<MarketAction> = head;
    if rows.len() > 0 {
        let waiting = pending(
            instrument,
            rows,
            by.bindings,
            &list,
            by.draining,
            tick.receipt_micros,
        );
        proof {
            assert(binding_names(by.bindings@, list@) =~= names_of(
                by.bindings@,
                indices(list@),
            )) by {
                same_names(by.bindings@, list@);
            }
            assert(waits(
                waiting,
                taken,
                instrument,
                by.awaited(indices(list@)),
                tick.receipt_micros,
            ));
        }
        feed.pending.push(waiting);
        prune_rows(&mut feed.pending, by.names, by.bindings, by.risks, by.now);
        ask_anew(&mut feed.asked, built, by, &list, instrument, &mut actions);
        proof {
            asked = actions@;
        }
        actions.push(MarketAction::RowsReady);
    }
    if has_due {
        actions.push(MarketAction::Compatibility);
    }
    proof {
        let commands = in_order(ended_by(old(feed).due@, instrument, tick.provider_time_micros));
        let asks = asks_of(*old(feed), *by, taken, instrument);
        assert(asked.take(head.len() as int) =~= head);
        assert forall|i: int| 0 <= i < asked.len() implies #[trigger] actions@[i] == asked[i] by {}
        assert forall|i: int| 0 <= i < head.len() implies #[trigger] actions@[i] == head[i] by {
            assert(asked.take(head.len() as int)[i] == asked[i]);
        }
        assert forall|i: int| 0 <= i < commands.len() implies records_due(
            #[trigger] actions@[i],
            commands[i],
            *tick,
        ) by {
            assert(views(ended@)[i] == ended@[i]@);
            assert(records_due(head[i], ended@[i]@, *tick));
        }
        assert forall|i: int| 0 <= i < asks.len() implies is_ask(
            actions@[commands.len() + 1 + i],
            #[trigger] asks[i],
            *by,
            instrument,
        ) by {
            assert(is_ask(asked[head.len() + i], asks[i], *by, instrument));
        }
    }
    assert(acts_on(actions@, *old(feed), *by, taken, instrument, *tick));
    assert(feed_after(*old(feed), *feed, *by, taken, instrument, *tick));
    assert(row_views(taken) == bound_rows(
        by.plan@,
        by.columns@,
        produced@,
        tick.receipt_micros,
        produced@.len(),
    ));
    Ok(actions)
}

proof fn deciders_are_bindings(
    strategies: Seq<Strategy>,
    columns: Seq<StreamColumns>,
    rows: Seq<Row>,
    bindings: Seq<Binding>,
    instrument: Seq<char>,
    count: nat,
)
    requires
        count <= bindings.len(),
    ensures
        forall|i: int|
            0 <= i < deciding(strategies, columns, rows, bindings, instrument, count).len() ==> 0
                <= #[trigger] deciding(strategies, columns, rows, bindings, instrument, count)[i]
                < count,
    decreases count,
{
    if count > 0 {
        deciders_are_bindings(
            strategies,
            columns,
            rows,
            bindings,
            instrument,
            (count - 1) as nat,
        );
        let before = deciding(
            strategies,
            columns,
            rows,
            bindings,
            instrument,
            (count - 1) as nat,
        );
        let all = deciding(strategies, columns, rows, bindings, instrument, count);
        assert forall|i: int| 0 <= i < all.len() implies 0 <= #[trigger] all[i] < count by {
            if i < before.len() {
                assert(all[i] == before[i]);
            }
        }
    }
}

proof fn same_names(bindings: Seq<Binding>, list: Seq<usize>)
    ensures
        binding_names(bindings, list) == names_of(bindings, indices(list)),
{
    let all = indices(list);
    assert forall|name: Seq<char>| binding_names(bindings, list).contains(name) == names_of(
        bindings,
        all,
    ).contains(name) by {
        if binding_names(bindings, list).contains(name) {
            let i = choose|i: int|
                0 <= i < list.len() && bindings[#[trigger] list[i] as int].id@ == name;
            assert(bindings[all[i]].id@ == name);
        }
        if names_of(bindings, all).contains(name) {
            let i = choose|i: int| 0 <= i < all.len() && bindings[#[trigger] all[i]].id@ == name;
            assert(bindings[list[i] as int].id@ == name);
        }
    }
    assert(binding_names(bindings, list) =~= names_of(bindings, all));
}

fn due_records(ended: &Vec<String>, tick: &MarketTick) -> (actions: Vec<MarketAction>)
    ensures
        actions@.len() == ended@.len(),
        forall|i: int|
            0 <= i < ended@.len() ==> records_due(#[trigger] actions@[i], ended@[i]@, *tick),
{
    let mut actions: Vec<MarketAction> = Vec::new();
    let mut i: usize = 0;
    while i < ended.len()
        invariant
            i <= ended@.len(),
            actions@.len() == i,
            forall|j: int|
                0 <= j < i ==> records_due(#[trigger] actions@[j], ended@[j]@, *tick),
        decreases ended@.len() - i,
    {
        actions.push(
            MarketAction::Record(
                RecordKind::DueTick {
                    command: ended[i].clone(),
                    provider_time_micros: tick.provider_time_micros,
                    price_units: tick.price_units,
                },
            ),
        );
        i = i + 1;
    }
    actions
}

fn ask_anew(
    asked: &mut Table<()>,
    built: Vec<ProposalRequest>,
    by: &Deciding<'_>,
    list: &Vec<usize>,
    instrument: usize,
    actions: &mut Vec<MarketAction>,
)
    requires
        built@.len() == list@.len(),
        forall|i: int| 0 <= i < list@.len() ==> #[trigger] list@[i] < by.bindings@.len(),
        forall|i: int|
            0 <= i < list@.len() ==> by.is_asked(
                #[trigger] built@[i],
                list@[i] as int,
                instrument as int,
            ),
    ensures
        final(asked)@.dom() == old(asked)@.dom().union(names_of(by.bindings@, indices(list@))),
        ({
            let asks = new_asks(by.bindings@, indices(list@), old(asked)@.dom(), list@.len());
            let d = old(actions)@.len() as int;
            &&& final(actions)@.len() == d + asks.len()
            &&& final(actions)@.take(d) == old(actions)@
            &&& asks_from(final(actions)@, d, asks, *by, instrument)
        }),
{
    let ghost all = indices(list@);
    let ghost start = asked@.dom();
    let ghost first = actions@;
    let ghost requests = built@;
    let ghost bindings = by.bindings@;
    let mut rest = built;
    let mut k: usize = 0;
    let ghost mut asks: Seq<int> = Seq::empty();
    assert(rest@ =~= requests.skip(0));
    assert(asked@.dom() =~= start.union(names_of(bindings, all.take(0))));
    assert(actions@.take(first.len() as int) =~= first);
    while k < list.len()
        invariant
            k <= list@.len(),
            bindings == by.bindings@,
            all == indices(list@),
            start == old(asked)@.dom(),
            first == old(actions)@,
            requests.len() == list@.len(),
            rest@ == requests.skip(k as int),
            forall|i: int| 0 <= i < list@.len() ==> #[trigger] list@[i] < bindings.len(),
            forall|i: int|
                0 <= i < list@.len() ==> by.is_asked(
                    #[trigger] requests[i],
                    list@[i] as int,
                    instrument as int,
                ),
            asked@.dom() == start.union(names_of(bindings, all.take(k as int))),
            actions@.take(first.len() as int) == first,
            asks == new_asks(bindings, all, start, k as nat),
            actions@.len() == first.len() + asks.len(),
            asks_from(actions@, first.len() as int, asks, *by, instrument),
        decreases list@.len() - k,
    {
        let request = rest.remove(0);
        assert(request == requests[k as int]);
        assert(rest@ =~= requests.skip(k + 1));
        let id = by.bindings[list[k]].id.as_str();
        let ghost before = asked@.dom();
        let ghost acted = actions@;
        assert(all[k as int] == list@[k as int]);
        let known: bool = asked.contains(id);
        proof {
            assert(known == !is_new_ask(bindings, all, start, k as int)) by {
                let earlier = all.take(k as int);
                if names_of(bindings, earlier).contains(id@) {
                    let j = choose|j: int|
                        0 <= j < earlier.len() && bindings[#[trigger] earlier[j]].id@ == id@;
                    assert(bindings[all[j]].id@ == id@);
                }
                if !start.contains(id@) && !is_new_ask(bindings, all, start, k as int) {
                    let j = choose|j: int|
                        0 <= j < k && bindings[#[trigger] all[j]].id@
                            == bindings[all[k as int]].id@;
                    assert(bindings[earlier[j]].id@ == id@);
                    assert(names_of(bindings, earlier).contains(id@));
                }
            }
        }
        if !known {
            asked.insert(id.to_owned(), ());
            actions.push(MarketAction::Ask(request));
        }
        proof {
            let more = new_asks(bindings, all, start, (k + 1) as nat);
            let earlier = all.take(k as int);
            let later = all.take(k + 1);
            assert(asked@.dom() =~= before.insert(id@));
            assert forall|name: Seq<char>| names_of(bindings, later).contains(name) == (names_of(
                bindings,
                earlier,
            ).contains(name) || name == id@) by {
                if names_of(bindings, earlier).contains(name) {
                    let j = choose|j: int|
                        0 <= j < earlier.len() && bindings[#[trigger] earlier[j]].id@ == name;
                    assert(bindings[later[j]].id@ == name);
                }
                if names_of(bindings, later).contains(name) {
                    let j = choose|j: int|
                        0 <= j < later.len() && bindings[#[trigger] later[j]].id@ == name;
                    if j < k {
                        assert(bindings[earlier[j]].id@ == name);
                    }
                }
                assert(bindings[later[k as int]].id@ == id@);
            }
            assert(asked@.dom() =~= start.union(names_of(bindings, later)));
            assert(actions@.take(first.len() as int) =~= acted.take(first.len() as int));
            assert forall|i: int| 0 <= i < more.len() implies is_ask(
                actions@[first.len() + i],
                #[trigger] more[i],
                *by,
                instrument,
            ) by {
                if i < asks.len() {
                    assert(more[i] == asks[i]);
                    assert(actions@[first.len() + i] == acted[first.len() + i]);
                } else {
                    assert(more[i] == all[k as int]);
                    assert(actions@[first.len() + i] == MarketAction::Ask(requests[k as int]));
                    assert(by.is_asked(requests[k as int], list@[k as int] as int, instrument as int));
                }
            }
            assert(asks_from(actions@, first.len() as int, more, *by, instrument));
            asks = more;
        }
        k = k + 1;
    }
    assert(all.take(k as int) =~= all);
}

} // verus!
