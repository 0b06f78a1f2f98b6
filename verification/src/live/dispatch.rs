//! One dispatch at a time: admission of an offer, the queue of prepared purchases, the durable
//! claim before a write, and what a write's outcome means.

use crate::live::control::{Claim, ClaimOutcome, ClaimState};
use crate::live::deployment::{Measurements, Mode};
use crate::live::entries::{after_veto, Vetoes, LEASE_LOST, UNRESOLVED_CLAIM};
use crate::live::finance::{BrokerLiability, ContractTerms, Decimal, EventKind, FinancialEvent, Proposal};
use crate::live::lease::is_time;
use crate::live::receipt::{Binding, RiskPolicy};
use crate::live::rows::{find_risk, risk_at};
use crate::search::{first_where, first_where_absent, first_where_found, first_where_meets};
use crate::table::Table;
use crate::text::{join, join3, refusal, same_text, text_of, views};
use vstd::prelude::*;
use vstd::string::*;

verus! {

/// Which bindings have a name.
pub open spec fn bindings_named(id: Seq<char>) -> spec_fn(Binding) -> bool {
    |binding: Binding| binding.id@ == id
}

/// The binding of a name.
pub open spec fn binding_at(bindings: Seq<Binding>, id: Seq<char>) -> Option<int> {
    first_where(bindings, bindings_named(id))
}

/// The binding of a name.
pub fn find_binding(bindings: &Vec<Binding>, id: &str) -> (found: Option<usize>)
    ensures
        found matches Some(at) ==> at < bindings@.len() && binding_at(bindings@, id@) == Some(
            at as int,
        ),
        found is None ==> binding_at(bindings@, id@) is None,
{
    let ghost wanted = bindings_named(id@);
    let mut i: usize = 0;
    while i < bindings.len()
        invariant
            i <= bindings@.len(),
            wanted == bindings_named(id@),
            forall|j: int| 0 <= j < i ==> !wanted(#[trigger] bindings@[j]),
        decreases bindings@.len() - i,
    {
        if same_text(bindings[i].id.as_str(), id) {
            proof {
                first_where_found(bindings@, wanted, i as int);
            }
            return Some(i);
        }
        i = i + 1;
    }
    proof {
        first_where_absent(bindings@, wanted);
    }
    None
}

/// The contract of a name.
pub open spec fn contract_at(contracts: Seq<ContractTerms>, id: Seq<char>) -> Option<int> {
    first_where(contracts, |terms: ContractTerms| terms.id@ == id)
}

/// The contract of a name.
pub fn find_contract(contracts: &Vec<ContractTerms>, id: &str) -> (found: Option<usize>)
    ensures
        found matches Some(at) ==> at < contracts@.len() && contract_at(contracts@, id@) == Some(
            at as int,
        ),
        found is None ==> contract_at(contracts@, id@) is None,
{
    let ghost wanted = |terms: ContractTerms| terms.id@ == id@;
    let mut i: usize = 0;
    while i < contracts.len()
        invariant
            i <= contracts@.len(),
            wanted == (|terms: ContractTerms| terms.id@ == id@),
            forall|j: int| 0 <= j < i ==> !wanted(#[trigger] contracts@[j]),
        decreases contracts@.len() - i,
    {
        if same_text(contracts[i].id.as_str(), id) {
            proof {
                first_where_found(contracts@, wanted, i as int);
            }
            return Some(i);
        }
        i = i + 1;
    }
    proof {
        first_where_absent(contracts@, wanted);
    }
    None
}

/// Whether a proposal has the economics of the baseline and the settlement and semantics of the
/// request template.
pub open spec fn as_assessed(
    proposal: Proposal,
    baseline: ContractTerms,
    template: ContractTerms,
) -> bool {
    &&& proposal.economics@ == baseline.economics@
    &&& proposal.settlement@ == template.settlement@
    &&& proposal.semantics@ == template.semantics@
}

/// Whether a proposal has the economics of the baseline and the settlement and semantics of the
/// request template.
pub fn is_as_assessed(
    proposal: &Proposal,
    baseline: &ContractTerms,
    template: &ContractTerms,
) -> (same: bool)
    ensures
        same == as_assessed(*proposal, *baseline, *template),
{
    same_text(proposal.economics.as_str(), baseline.economics.as_str()) && same_text(
        proposal.settlement.as_str(),
        template.settlement.as_str(),
    ) && same_text(proposal.semantics.as_str(), template.semantics.as_str())
}

/// Whether a proposal is exactly what the baseline assessed, under its own identities.
pub open spec fn is_exact(
    proposal: Proposal,
    baseline: ContractTerms,
    template: ContractTerms,
) -> bool {
    &&& as_assessed(proposal, baseline, template)
    &&& proposal.terms_identity@ == proposal.identity@
    &&& proposal.request_identity@ == proposal.canonical_request_identity@
}

/// What becomes of an offer.
#[derive(Debug)]
pub enum Offer {
    /// There is none: the one before is withdrawn.
    Withdrawn,
    /// It is handed to the engine.
    Admitted,
    /// It is refused, for this reason.
    Refused(String),
}

/// Why an offer cannot be judged.
pub open spec fn offer_refusal(
    bindings: Seq<Binding>,
    contracts: Seq<ContractTerms>,
    binding: Seq<char>,
) -> Option<Seq<char>> {
    match binding_at(bindings, binding) {
        None => Some("live: unknown proposal binding"@),
        Some(at) => if contract_at(contracts, bindings[at].contract@) is None {
            Some("live: missing request template"@)
        } else {
            None
        },
    }
}

/// What becomes of an offer for a binding.
pub open spec fn offers(
    bindings: Seq<Binding>,
    contracts: Seq<ContractTerms>,
    baseline: Seq<ContractTerms>,
    binding: Seq<char>,
    proposal: Option<Proposal>,
    offered: Result<Offer, String>,
) -> bool {
    &&& refusal(offered) == (if proposal is None {
        None
    } else {
        offer_refusal(bindings, contracts, binding)
    })
    &&& offered matches Ok(offer) ==> match proposal {
        None => offer is Withdrawn,
        Some(proposal) => {
            let at = contract_at(contracts, bindings[binding_at(bindings, binding)->0].contract@)->0;
            if is_exact(proposal, baseline[at], contracts[at]) {
                offer is Admitted
            } else {
                offer matches Offer::Refused(reason) && reason@
                    == "offer differs from exact baseline "@ + baseline[at].id@
            }
        },
    }
}

/// An offer is admitted only at exactly the terms that were assessed: its binding is known, the
/// binding's contract is a request template, the economics are those of the baseline at the
/// template's place, the settlement and the semantics are those of the template, and it stands
/// under its own identities. Every such offer is admitted. One that differs in any of these is
/// refused, with the name of the baseline; one without a known binding or template is an error;
/// and no offer at all withdraws the one before.
pub proof fn only_the_exact_baseline_is_admitted(
    bindings: Seq<Binding>,
    contracts: Seq<ContractTerms>,
    baseline: Seq<ContractTerms>,
    named: Seq<char>,
    proposal: Option<Proposal>,
    offered: Result<Offer, String>,
    b: int,
    t: int,
)
    requires
        offers(bindings, contracts, baseline, named, proposal, offered),
        0 <= b < bindings.len(),
        forall|i: int| 0 <= i < b ==> (#[trigger] bindings[i]).id@ != named,
        bindings[b].id@ == named,
        0 <= t < contracts.len(),
        forall|i: int| 0 <= i < t ==> (#[trigger] contracts[i]).id@ != bindings[b].contract@,
        contracts[t].id@ == bindings[b].contract@,
    ensures
        offered is Ok,
        proposal is None <==> offered->Ok_0 is Withdrawn,
        proposal matches Some(proposal) ==> {
            &&& offered->Ok_0 is Admitted <==> proposal.economics@ == baseline[t].economics@
                && proposal.settlement@ == contracts[t].settlement@ && proposal.semantics@
                == contracts[t].semantics@ && proposal.terms_identity@ == proposal.identity@
                && proposal.request_identity@ == proposal.canonical_request_identity@
            &&& !(offered->Ok_0 is Admitted) ==> (offered->Ok_0 matches Offer::Refused(reason)
                && reason@ == "offer differs from exact baseline "@ + baseline[t].id@)
        },
{
    let wanted = bindings_named(named);
    assert forall|i: int| 0 <= i < b implies !wanted(#[trigger] bindings[i]) by {}
    first_where_found(bindings, wanted, b);
    let template = |terms: ContractTerms| terms.id@ == bindings[b].contract@;
    assert forall|i: int| 0 <= i < t implies !template(#[trigger] contracts[i]) by {}
    first_where_found(contracts, template, t);
}

/// An offer for a binding that is not known, or whose contract is no request template, is never
/// admitted: it is an error.
pub proof fn an_unknown_offer_is_an_error(
    bindings: Seq<Binding>,
    contracts: Seq<ContractTerms>,
    baseline: Seq<ContractTerms>,
    named: Seq<char>,
    proposal: Proposal,
    offered: Result<Offer, String>,
)
    requires
        offers(bindings, contracts, baseline, named, Some(proposal), offered),
        forall|b: int, t: int|
            0 <= b < bindings.len() && 0 <= t < contracts.len() && (
            #[trigger] bindings[b]).id@ == named ==> (#[trigger] contracts[t]).id@
                != bindings[b].contract@,
    ensures
        offered is Err,
{
    let wanted = bindings_named(named);
    first_where_meets(bindings, wanted);
    if let Some(b) = binding_at(bindings, named) {
        assert(wanted(bindings[b]));
        let template = |terms: ContractTerms| terms.id@ == bindings[b].contract@;
        first_where_meets(contracts, template);
        if let Some(t) = contract_at(contracts, bindings[b].contract@) {
            assert(template(contracts[t]));
        }
    }
}

/// Exact baseline admission, before the offer is installed or money reserved.
pub fn offer(
    bindings: &Vec<Binding>,
    contracts: &Vec<ContractTerms>,
    baseline: &Vec<ContractTerms>,
    binding: &str,
    proposal: &Option<Proposal>,
) -> (offered: Result<Offer, String>)
    requires
        contracts@.len() <= baseline@.len(),
    ensures
        offers(bindings@, contracts@, baseline@, binding@, *proposal, offered),
{
    let proposal = match proposal {
        Some(proposal) => proposal,
        None => {
            return Ok(Offer::Withdrawn);
        },
    };
    let bound = match find_binding(bindings, binding) {
        Some(at) => &bindings[at],
        None => {
            return Err("live: unknown proposal binding".to_owned());
        },
    };
    let at: usize = match find_contract(contracts, bound.contract.as_str()) {
        Some(at) => at,
        None => {
            return Err("live: missing request template".to_owned());
        },
    };
    if !is_as_assessed(proposal, &baseline[at], &contracts[at]) || !same_text(
        proposal.terms_identity.as_str(),
        proposal.identity.as_str(),
    ) || !same_text(
        proposal.request_identity.as_str(),
        proposal.canonical_request_identity.as_str(),
    ) {
        return Ok(
            Offer::Refused(
                join("offer differs from exact baseline ", baseline[at].id.as_str()),
            ),
        );
    }
    Ok(Offer::Admitted)
}

/// A purchase to prepare.
#[derive(Debug)]
pub struct PreparedPurchase {
    pub dispatch_claim: String,
    pub command: String,
    pub proposal_identity: String,
    pub maximum_price: Decimal,
}

impl Clone for PreparedPurchase {
    fn clone(&self) -> (copy: Self)
        ensures
            copy == *self,
    {
        PreparedPurchase {
            dispatch_claim: self.dispatch_claim.clone(),
            command: self.command.clone(),
            proposal_identity: self.proposal_identity.clone(),
            maximum_price: self.maximum_price,
        }
    }
}

/// A purchase on its way.
#[derive(Debug)]
pub struct Dispatch {
    pub signal: FinancialEvent,
    pub prepared: PreparedPurchase,
    pub claim_at: Option<i64>,
}

/// The command and the proposal of an admitted broker signal.
pub open spec fn admitted(signal: FinancialEvent) -> Option<(Seq<char>, Proposal)> {
    match signal.kind {
        EventKind::Signal(signal) => match (signal.command, signal.proposal) {
            (Some(command), Some(proposal)) => Some((command@, proposal)),
            _ => None,
        },
        _ => None,
    }
}

/// Whether this is the purchase that an admitted broker signal asks for.
pub open spec fn asks_for(
    signal: FinancialEvent,
    deployment: Seq<char>,
    prepared: PreparedPurchase,
) -> bool {
    let (command, proposal) = admitted(signal)->0;
    &&& prepared.dispatch_claim@ == deployment + ":"@ + command
    &&& prepared.command@ == command
    &&& prepared.proposal_identity == proposal.identity
    &&& prepared.maximum_price == proposal.quoted_cost
}

/// The purchase that an admitted broker signal asks for.
pub fn purchase(signal: &FinancialEvent, deployment: &str) -> (prepared: Result<
    PreparedPurchase,
    String,
>)
    ensures
        refusal(prepared) == (if admitted(*signal) is None {
            Some("live: dispatch requires an admitted broker signal"@)
        } else {
            None
        }),
        prepared matches Ok(prepared) ==> asks_for(*signal, deployment@, prepared),
{
    if let EventKind::Signal(signal) = &signal.kind {
        if let (Some(command), Some(proposal)) = (&signal.command, &signal.proposal) {
            return Ok(
                PreparedPurchase {
                    dispatch_claim: join3(deployment, ":", command.as_str()),
                    command: command.clone(),
                    proposal_identity: proposal.identity.clone(),
                    maximum_price: proposal.quoted_cost,
                },
            );
        }
    }
    Err("live: dispatch requires an admitted broker signal".to_owned())
}

/// The difference of two times, where it is one.
pub open spec fn elapsed(from: Option<i64>, to: i64) -> Option<i64> {
    match from {
        Some(from) => if is_time(to - from) {
            Some((to - from) as i64)
        } else {
            None
        },
        None => None,
    }
}

fn since(from: Option<i64>, to: i64) -> (elapsed_micros: Option<i64>)
    ensures
        elapsed_micros == elapsed(from, to),
{
    match from {
        Some(from) => to.checked_sub(from),
        None => None,
    }
}

/// Whether a signal is dispatched.
#[derive(Debug, Clone, Copy, PartialEq, Eq, Structural)]
pub enum Route {
    /// It is not sent: the run only observes.
    Paper,
    /// It is not sent: entries are disabled.
    Disabled,
    /// It is queued.
    Queue,
}

/// Whether a signal is dispatched.
pub open spec fn routed(mode: Mode, enabled: bool) -> Route {
    if mode is Paper {
        Route::Paper
    } else if !enabled {
        Route::Disabled
    } else {
        Route::Queue
    }
}

/// Decides whether a signal is dispatched, and measures how long the decision took.
pub fn route(
    mode: Mode,
    enabled: bool,
    measured: Measurements,
    decision_receipt: Option<i64>,
    signal_time: i64,
) -> (decided: (Route, Measurements))
    ensures
        decided.0 == routed(mode, enabled),
        decided.1 == (Measurements {
            market_event_to_decision_micros: elapsed(decision_receipt, signal_time),
            ..measured
        }),
{
    let noted = Measurements {
        market_event_to_decision_micros: since(decision_receipt, signal_time),
        claim_to_socket_write_micros: measured.claim_to_socket_write_micros,
        decision_to_acceptance_micros: measured.decision_to_acceptance_micros,
    };
    let route = if mode == Mode::Paper {
        Route::Paper
    } else if !enabled {
        Route::Disabled
    } else {
        Route::Queue
    };
    (route, noted)
}

/// The purchases on their way, one of which is prepared at a time.
#[derive(Debug)]
pub struct Queue {
    pub dispatches: Table<Dispatch>,
    pub order: Vec<String>,
}

impl Queue {
    /// Every purchase stands once in the order, and nothing else does.
    pub open spec fn wf(&self) -> bool {
        &&& views(self.order@).no_duplicates()
        &&& views(self.order@).to_set() == self.dispatches@.dom()
        &&& forall|command: Seq<char>| #[trigger]
            self.dispatches@.dom().contains(command)
                ==> self.dispatches@[command].prepared.command@ == command
    }

    /// The commands in the order in which they are prepared.
    pub open spec fn line(&self) -> Seq<Seq<char>> {
        views(self.order@)
    }

    /// Nothing is on its way.
    pub fn new() -> (queue: Queue)
        ensures
            queue.wf(),
            queue.line() == Seq::<Seq<char>>::empty(),
    {
        let queue = Queue { dispatches: Table::new(), order: Vec::new() };
        assert(queue.line() =~= Seq::<Seq<char>>::empty());
        assert(queue.line().to_set() =~= queue.dispatches@.dom());
        queue
    }

    /// What is prepared once a purchase is finished: the second of the line, where that purchase
    /// was the first.
    pub open spec fn next_after(&self, command: Seq<char>) -> Option<PreparedPurchase> {
        if self.line().len() > 1 && self.line()[0] == command {
            Some(self.dispatches@[self.line()[1]].prepared)
        } else {
            None
        }
    }

    /// Whether a purchase can be finished: the one that is prepared next is on its way.
    pub open spec fn can_complete(&self, command: Seq<char>) -> bool {
        self.line().len() > 1 && self.line()[0] == command ==> self.line()[1] != command
            && self.dispatches@.dom().contains(self.line()[1])
    }

    /// This queue after a purchase was finished.
    pub open spec fn completed(&self, after: Queue, command: Seq<char>) -> bool {
        &&& after.dispatches@ == self.dispatches@.remove(command)
        &&& after.line() == (if self.line().len() > 0 && self.line()[0] == command {
            self.line().skip(1)
        } else {
            self.line()
        })
    }

    /// Queues a purchase. The only one is prepared at once.
    pub fn push(&mut self, signal: FinancialEvent, prepared: PreparedPurchase) -> (prepare: Option<
        PreparedPurchase,
    >)
        ensures
            (old(self).wf() && !old(self).dispatches@.dom().contains(prepared.command@))
                ==> final(self).wf(),
            final(self).line() == old(self).line().push(prepared.command@),
            final(self).dispatches@ == old(self).dispatches@.insert(
                prepared.command@,
                (Dispatch { signal, prepared, claim_at: None }),
            ),
            prepare == (if old(self).line().len() == 0 {
                Some(prepared)
            } else {
                None
            }),
    {
        let command = prepared.command.clone();
        let first: bool = self.order.len() == 0;
        let prepare = if first {
            Some(prepared.clone())
        } else {
            None
        };
        let ghost before = self.line();
        let ghost start = *self;
        self.order.push(command.clone());
        self.dispatches.insert(command, Dispatch { signal, prepared, claim_at: None });
        proof {
            let after = self.line();
            assert(after =~= before.push(prepared.command@));
            if start.wf() && !start.dispatches@.dom().contains(prepared.command@) {
                assert(!before.contains(prepared.command@)) by {
                    assert(!before.to_set().contains(prepared.command@));
                }
                assert forall|text: Seq<char>| after.to_set().contains(text)
                    == self.dispatches@.dom().contains(text) by {
                    if before.contains(text) {
                        let j = choose|j: int| 0 <= j < before.len() && before[j] == text;
                        assert(after[j] == text);
                    }
                    assert(before.to_set().contains(text) == before.contains(text));
                    if after.contains(text) {
                        let j = choose|j: int| 0 <= j < after.len() && after[j] == text;
                        if j < before.len() {
                            assert(before[j] == text);
                        }
                    }
                    assert(after[before.len() as int] == prepared.command@);
                }
                assert(after.to_set() =~= self.dispatches@.dom());
            }
        }
        prepare
    }

    /// The purchase that a reply to a write belongs to.
    pub fn replied(&self, command: &str) -> (dispatch: Result<&Dispatch, String>)
        ensures
            match dispatch {
                Ok(dispatch) => self.dispatches@.dom().contains(command@) && *dispatch
                    == self.dispatches@[command@],
                Err(message) => !self.dispatches@.dom().contains(command@) && message@
                    == "live: write reply without command"@,
            },
    {
        match self.dispatches.get(command) {
            Some(dispatch) => Ok(dispatch),
            None => Err("live: write reply without command".to_owned()),
        }
    }

    /// Takes a finished purchase out. Where it was the first of the line, the next one is then
    /// prepared.
    pub fn complete(&mut self, command: &str) -> (prepare: Option<PreparedPurchase>)
        requires
            old(self).can_complete(command@),
        ensures
            old(self).completed(*final(self), command@),
            prepare == old(self).next_after(command@),
            (old(self).wf() && (old(self).dispatches@.dom().contains(command@)
                ==> old(self).line()[0] == command@)) ==> final(self).wf(),
    {
        let ghost start = *self;
        let ghost before = self.line();
        let _ = self.dispatches.remove(command);
        let first: bool = self.order.len() > 0 && same_text(self.order[0].as_str(), command);
        if !first {
            proof {
                if start.wf() && !start.dispatches@.dom().contains(command@) {
                    assert(self.dispatches@ =~= start.dispatches@);
                }
                if start.wf() && start.dispatches@.dom().contains(command@) {
                    assert(before.to_set().contains(command@));
                }
            }
            return None;
        }
        let _ = self.order.remove(0);
        proof {
            let after = self.line();
            assert(after =~= before.skip(1));
            if start.wf() {
                line_without_first(before, start.dispatches@.dom(), command@);
                assert(after.to_set() =~= self.dispatches@.dom());
            }
        }
        if self.order.len() == 0 {
            return None;
        }
        assert(self.line()[0] == before[1]);
        match self.dispatches.get(self.order[0].as_str()) {
            Some(dispatch) => Some(dispatch.prepared.clone()),
            None => None,
        }
    }

    /// Notes when the claim of a purchase was made.
    pub fn note_claim(&mut self, command: &str, now: i64)
        ensures
            final(self).line() == old(self).line(),
            final(self).dispatches@ == (if old(self).dispatches@.dom().contains(command@) {
                old(self).dispatches@.insert(
                    command@,
                    Dispatch { claim_at: Some(now), ..old(self).dispatches@[command@] },
                )
            } else {
                old(self).dispatches@
            }),
            old(self).wf() ==> final(self).wf(),
    {
        let ghost start = *self;
        if let Some(dispatch) = self.dispatches.remove(command) {
            let mut noted = dispatch;
            noted.claim_at = Some(now);
            self.dispatches.insert(command.to_owned(), noted);
            assert(self.dispatches@ =~= start.dispatches@.insert(command@, noted));
            assert(self.dispatches@.dom() =~= start.dispatches@.dom());
        } else {
            assert(self.dispatches@ =~= start.dispatches@);
        }
    }
}

proof fn line_without_first(line: Seq<Seq<char>>, domain: Set<Seq<char>>, command: Seq<char>)
    requires
        line.len() > 0,
        line[0] == command,
        line.no_duplicates(),
        line.to_set() == domain,
    ensures
        line.skip(1).no_duplicates(),
        line.skip(1).to_set() == domain.remove(command),
{
    let after = line.skip(1);
    assert forall|text: Seq<char>| after.to_set().contains(text) == domain.remove(command).contains(
        text,
    ) by {
        assert(line.to_set().contains(text) == domain.contains(text));
        if after.contains(text) {
            let j = choose|j: int| 0 <= j < after.len() && after[j] == text;
            assert(line[j + 1] == text);
            assert(line[0] != line[j + 1]);
        }
        if line.contains(text) && text != command {
            let j = choose|j: int| 0 <= j < line.len() && line[j] == text;
            assert(after[j - 1] == text);
        }
    }
    assert(after.to_set() =~= domain.remove(command));
    assert forall|i: int, j: int|
        0 <= i < after.len() && 0 <= j < after.len() && i != j implies after[i] != after[j] by {
        assert(line[i + 1] != line[j + 1]);
    }
}

/// Any purchase of a well-formed queue can be finished: whoever is next is on their way.
pub proof fn a_queue_never_loses_the_next(queue: Queue, command: Seq<char>)
    requires
        queue.wf(),
    ensures
        queue.can_complete(command),
{
    let line = queue.line();
    if line.len() > 1 && line[0] == command {
        assert(line.contains(line[1]));
        assert(line.to_set().contains(line[1]));
    }
}

/// How old a proposal may be when it is used, under the risk policy of its binding.
pub open spec fn age_limit_of(
    bindings: Seq<Binding>,
    risks: Seq<RiskPolicy>,
    binding: Seq<char>,
) -> Option<i64> {
    match binding_at(bindings, binding) {
        Some(at) => match risk_at(risks, bindings[at].risk_policy@) {
            Some(risk) => risks[risk].max_proposal_age_micros,
            None => None,
        },
        None => None,
    }
}

/// How old a proposal may be when it is used, under the risk policy of its binding.
pub fn proposal_age_limit(bindings: &Vec<Binding>, risks: &Vec<RiskPolicy>, binding: &str) -> (age:
    Option<i64>)
    ensures
        age == age_limit_of(bindings@, risks@, binding@),
{
    match find_binding(bindings, binding) {
        Some(at) => match find_risk(risks, bindings[at].risk_policy.as_str()) {
            Some(risk) => risks[risk].max_proposal_age_micros,
            None => None,
        },
        None => None,
    }
}

/// Whether a proposal is too old to use, or the lease is over.
pub open spec fn is_expired(
    now: i64,
    receipt_micros: i64,
    max_age: i64,
    local_now: i64,
    deadline: i64,
) -> bool {
    !is_time(now - receipt_micros) || now - receipt_micros > max_age || local_now >= deadline
}

/// Whether a proposal is too old to use, or the lease is over.
pub fn expired(now: i64, receipt_micros: i64, max_age: i64, local_now: i64, deadline: i64) -> (
over: bool)
    ensures
        over == is_expired(now, receipt_micros, max_age, local_now, deadline),
{
    let stale: bool = match now.checked_sub(receipt_micros) {
        Some(age) => age > max_age,
        None => true,
    };
    stale || local_now >= deadline
}

/// Whether this is the durable claim that is made before a purchase is written.
pub open spec fn claims_dispatch(
    claim: Claim,
    command: Seq<char>,
    dispatch: Dispatch,
    deployment: Seq<char>,
    token: u64,
    max_proposal_age_micros: i64,
) -> bool {
    &&& claim.command@ == command
    &&& claim.claim == dispatch.prepared.dispatch_claim
    &&& claim.deployment@ == deployment
    &&& claim.token == token
    &&& claim.max_proposal_age_micros == max_proposal_age_micros
    &&& claim.signal == dispatch.signal
    &&& claim.state is Claimed
    &&& claim.contract_ref is None
    &&& claim.transaction_ref is None
}

/// The durable claim that is made before anything is written.
pub fn claim_of(
    command: &str,
    dispatch: &Dispatch,
    deployment: &str,
    token: u64,
    max_proposal_age_micros: i64,
) -> (claim: Claim)
    ensures
        claims_dispatch(
            claim,
            command@,
            *dispatch,
            deployment@,
            token,
            max_proposal_age_micros,
        ),
{
    Claim {
        command: command.to_owned(),
        claim: dispatch.prepared.dispatch_claim.clone(),
        deployment: deployment.to_owned(),
        token,
        max_proposal_age_micros,
        signal: dispatch.signal.clone(),
        state: ClaimState::Claimed,
        contract_ref: None,
        transaction_ref: None,
    }
}

/// What a claim attempt leads to.
#[derive(Debug)]
pub enum Claimed {
    /// The purchase may be written.
    Inserted,
    /// The lease is gone; nothing was written.
    LeaseLost,
    /// The claim was there before: its command may have been sent.
    Replayed,
    /// Whether the claim was made is unknown, for this reason.
    Uncertain(String),
}

/// Takes the answer to a claim attempt.
pub fn claimed(
    claims: &mut Table<Claim>,
    vetoes: &mut Vetoes,
    claim: Claim,
    answer: Result<ClaimOutcome, String>,
) -> (outcome: Claimed)
    ensures
        match answer {
            Ok(ClaimOutcome::Inserted) => {
                &&& outcome is Inserted
                &&& final(claims)@ == old(claims)@.insert(claim.command@, claim)
                &&& final(vetoes)@ == old(vetoes)@
            },
            Ok(ClaimOutcome::LeaseLost) => {
                &&& outcome is LeaseLost
                &&& final(claims)@ == old(claims)@
                &&& final(vetoes)@ == after_veto(old(vetoes)@, LEASE_LOST@, true)
            },
            Ok(ClaimOutcome::Replay(existing)) => {
                &&& outcome is Replayed
                &&& final(claims)@ == old(claims)@.insert(
                    claim.command@,
                    Claim { state: ClaimState::PossiblySent, ..existing },
                )
                &&& final(vetoes)@ == after_veto(old(vetoes)@, UNRESOLVED_CLAIM@, true)
            },
            Err(error) => {
                &&& outcome matches Claimed::Uncertain(reason)
                &&& reason@ == "claim commit uncertain: "@ + error@
                &&& final(claims)@ == old(claims)@.insert(
                    claim.command@,
                    Claim { state: ClaimState::PossiblySent, ..claim },
                )
                &&& final(vetoes)@ == after_veto(old(vetoes)@, UNRESOLVED_CLAIM@, true)
            },
        },
{
    let command = claim.command.clone();
    match answer {
        Ok(ClaimOutcome::Inserted) => {
            claims.insert(command, claim);
            Claimed::Inserted
        },
        Ok(ClaimOutcome::LeaseLost) => {
            vetoes.set(LEASE_LOST, true);
            Claimed::LeaseLost
        },
        Ok(ClaimOutcome::Replay(existing)) => {
            let mut existing = existing;
            existing.state = ClaimState::PossiblySent;
            claims.insert(command, existing);
            vetoes.set(UNRESOLVED_CLAIM, true);
            Claimed::Replayed
        },
        Err(error) => {
            let mut doubtful = claim;
            doubtful.state = ClaimState::PossiblySent;
            claims.insert(command, doubtful);
            vetoes.set(UNRESOLVED_CLAIM, true);
            Claimed::Uncertain(join("claim commit uncertain: ", error.as_str()))
        },
    }
}

/// Whether a claimed purchase is written: its offer is still as assessed, young enough, and
/// under the lease.
pub open spec fn may_write(
    outcome: Claimed,
    proposal: Proposal,
    baseline: ContractTerms,
    template: ContractTerms,
    over: bool,
) -> bool {
    outcome is Inserted && as_assessed(proposal, baseline, template) && !over
}

/// Decides whether a claimed purchase is written.
pub fn writes(
    outcome: &Claimed,
    proposal: &Proposal,
    baseline: &ContractTerms,
    template: &ContractTerms,
    over: bool,
) -> (write: bool)
    ensures
        write == may_write(*outcome, *proposal, *baseline, *template, over),
{
    match outcome {
        Claimed::Inserted => is_as_assessed(proposal, baseline, template) && !over,
        _ => false,
    }
}

/// Nothing is written but by the owner whose claim was inserted just before, within the age of
/// the proposal and before the deadline of the lease.
pub proof fn a_write_has_a_fresh_claim(
    outcome: Claimed,
    proposal: Proposal,
    baseline: ContractTerms,
    template: ContractTerms,
    now: i64,
    max_age: i64,
    local_now: i64,
    deadline: i64,
)
    requires
        may_write(
            outcome,
            proposal,
            baseline,
            template,
            is_expired(now, proposal.receipt_micros, max_age, local_now, deadline),
        ),
    ensures
        outcome is Inserted,
        now - proposal.receipt_micros <= max_age,
        local_now < deadline,
{
}

/// What the broker made of a purchase.
#[derive(Debug)]
pub enum PurchaseOutcome {
    Accepted { liability: BrokerLiability },
    Rejected { reason: String },
    ProvenNotSent { reason: String },
    PossiblySent { reason: String },
}

/// The state of a claim after its purchase.
pub open spec fn state_after(outcome: PurchaseOutcome) -> ClaimState {
    match outcome {
        PurchaseOutcome::Accepted { .. } => ClaimState::Accepted,
        PurchaseOutcome::Rejected { .. } => ClaimState::Rejected,
        PurchaseOutcome::ProvenNotSent { .. } => ClaimState::NotSent,
        PurchaseOutcome::PossiblySent { .. } => ClaimState::PossiblySent,
    }
}

/// What follows from a purchase that was written.
#[derive(Debug)]
pub struct Written {
    pub state: ClaimState,
    pub contract_ref: Option<String>,
    pub transaction_ref: Option<String>,
    pub measured: Measurements,
    /// The claim is reconciled at once.
    pub reconciled: bool,
    /// A recorded run fails for this reason.
    pub failure: Option<String>,
}

/// Reads what follows from a purchase that was written.
pub fn written(
    outcome: &PurchaseOutcome,
    dispatch: &Dispatch,
    measured: Measurements,
    sent: i64,
    received: i64,
    replay: bool,
) -> (after: Written)
    ensures
        after.state == state_after(*outcome),
        text_of(after.contract_ref) == (match *outcome {
            PurchaseOutcome::Accepted { liability } => Some(liability.contract_ref@),
            _ => None,
        }),
        text_of(after.transaction_ref) == (match *outcome {
            PurchaseOutcome::Accepted { liability } => Some(liability.transaction_ref@),
            _ => None,
        }),
        after.measured == (Measurements {
            claim_to_socket_write_micros: elapsed(dispatch.claim_at, sent),
            decision_to_acceptance_micros: if *outcome is Accepted {
                elapsed(Some(dispatch.signal.time_micros), received)
            } else {
                measured.decision_to_acceptance_micros
            },
            ..measured
        }),
        after.reconciled == (after.state is Rejected || after.state is NotSent),
        text_of(after.failure) == (match *outcome {
            PurchaseOutcome::PossiblySent { reason } => if replay {
                Some(reason@)
            } else {
                None
            },
            _ => None,
        }),
{
    let mut noted = Measurements {
        market_event_to_decision_micros: measured.market_event_to_decision_micros,
        claim_to_socket_write_micros: since(dispatch.claim_at, sent),
        decision_to_acceptance_micros: measured.decision_to_acceptance_micros,
    };
    let mut contract_ref: Option<String> = None;
    let mut transaction_ref: Option<String> = None;
    let mut failure: Option<String> = None;
    let mut reconciled: bool = false;
    let state = match outcome {
        PurchaseOutcome::Accepted { liability } => {
            noted.decision_to_acceptance_micros = since(
                Some(dispatch.signal.time_micros),
                received,
            );
            contract_ref = Some(liability.contract_ref.clone());
            transaction_ref = Some(liability.transaction_ref.clone());
            ClaimState::Accepted
        },
        PurchaseOutcome::Rejected { .. } => {
            reconciled = true;
            ClaimState::Rejected
        },
        PurchaseOutcome::ProvenNotSent { .. } => {
            reconciled = true;
            ClaimState::NotSent
        },
        PurchaseOutcome::PossiblySent { reason } => {
            if replay {
                failure = Some(reason.clone());
            }
            ClaimState::PossiblySent
        },
    };
    Written { state, contract_ref, transaction_ref, measured: noted, reconciled, failure }
}

} // verus!
