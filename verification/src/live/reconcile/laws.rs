//! What a reconciled claim may rest on.

use crate::live::control::Claim;
use crate::live::dispatch::{age_limit_of, binding_at, bindings_named};
use crate::live::finance::{
    same_amount_in_powers, BrokerLiability, Decimal, Direction, EventKind, FinancialEvent,
    Proposal, Signal,
};
use crate::live::receipt::{Binding, RiskPolicy};
use crate::live::reconcile::{
    allows, candidates, claimed_elsewhere, colon_at, has_contract, is_match, is_uncorrelated,
    open_candidate, open_candidates, row_candidate, search_for, symbol_of, window_of, Match, OpenContract, Search, StatementRow,
};
use crate::live::rows::risk_at;
use crate::search::first_where_meets;
use crate::table::{every_finite_set_is_listed, in_order};
use crate::text::text_of;
use vstd::arithmetic::power::pow;
use vstd::prelude::*;

verus! {

/// The provider's symbol follows the first colon of an instrument's name.
pub proof fn a_symbol_follows_the_first_colon(
    instrument: Seq<char>,
    broker: Seq<char>,
    symbol: Seq<char>,
)
    requires
        instrument == broker + seq![':'] + symbol,
        forall|i: int| 0 <= i < broker.len() ==> #[trigger] broker[i] != ':',
    ensures
        symbol_of(instrument) == symbol,
{
    let wanted = |c: char| c == ':';
    let at = broker.len() as int;
    assert(instrument[at] == ':');
    assert forall|i: int| 0 <= i < at implies !wanted(#[trigger] instrument[i]) by {
        assert(instrument[i] == broker[i]);
    }
    crate::search::first_where_found(instrument, wanted, at);
    assert(symbol_of(instrument) =~= symbol);
}

/// A name without a colon has no symbol.
pub proof fn a_name_without_a_colon_has_no_symbol(instrument: Seq<char>)
    requires
        !instrument.contains(':'),
    ensures
        symbol_of(instrument).len() == 0,
{
    let wanted = |c: char| c == ':';
    first_where_meets(instrument, wanted);
    if let Some(at) = colon_at(instrument) {
        assert(instrument.contains(instrument[at]));
    }
}

/// Where the purchase of a claim was seen.
pub enum Seen {
    /// Among the open contracts, at this place.
    Open(int),
    /// In the statement, at this place.
    Row(int),
}

proof fn seen_open(search: Search, open: Seq<OpenContract>, count: nat, contract: Seq<char>) -> (at:
    int)
    requires
        count <= open.len(),
        open_candidates(search, open, count).dom().contains(contract),
    ensures
        0 <= at < count,
        open[at].contract_ref@ == contract,
        open_candidate(search, open[at]),
        open_candidates(search, open, count)[contract] == (
            open[at].buy_price,
            BrokerLiability {
                contract_ref: open[at].contract_ref,
                transaction_ref: open[at].transaction_ref,
                purchase_time_micros: open[at].purchase_time_micros,
                expected_start_micros: open[at].start_micros,
                payout: open[at].payout,
            },
        ),
    decreases count,
{
    let last = open[count - 1];
    if open_candidate(search, last) && last.contract_ref@ == contract {
        count - 1
    } else {
        seen_open(search, open, (count - 1) as nat, contract)
    }
}

proof fn seen_at(
    search: Search,
    open: Seq<OpenContract>,
    rows: Seq<StatementRow>,
    count: nat,
    contract: Seq<char>,
) -> (seen: Seen)
    requires
        count <= rows.len(),
        candidates(search, open, rows, count).dom().contains(contract),
    ensures
        match seen {
            Seen::Open(at) => {
                &&& 0 <= at < open.len()
                &&& open[at].contract_ref@ == contract
                &&& open_candidate(search, open[at])
                &&& candidates(search, open, rows, count)[contract] == (
                    open[at].buy_price,
                    BrokerLiability {
                        contract_ref: open[at].contract_ref,
                        transaction_ref: open[at].transaction_ref,
                        purchase_time_micros: open[at].purchase_time_micros,
                        expected_start_micros: open[at].start_micros,
                        payout: open[at].payout,
                    },
                )
            },
            Seen::Row(at) => {
                &&& 0 <= at < count
                &&& row_candidate(search, rows[at])
                &&& rows[at].purchase == Some(candidates(search, open, rows, count)[contract])
                &&& candidates(search, open, rows, count)[contract].1.contract_ref@ == contract
            },
        },
    decreases count,
{
    if count == 0 {
        Seen::Open(seen_open(search, open, open.len(), contract))
    } else {
        let before = candidates(search, open, rows, (count - 1) as nat);
        if before.dom().contains(contract) {
            seen_at(search, open, rows, (count - 1) as nat, contract)
        } else {
            Seen::Row(count - 1)
        }
    }
}

proof fn candidates_stay_finite(
    search: Search,
    open: Seq<OpenContract>,
    rows: Seq<StatementRow>,
    count: nat,
)
    ensures
        candidates(search, open, rows, count).dom().finite(),
    decreases count,
{
    if count > 0 {
        candidates_stay_finite(search, open, rows, (count - 1) as nat);
    } else {
        open_candidates_stay_finite(search, open, open.len());
    }
}

proof fn open_candidates_stay_finite(search: Search, open: Seq<OpenContract>, count: nat)
    ensures
        open_candidates(search, open, count).dom().finite(),
    decreases count,
{
    if count > 0 {
        open_candidates_stay_finite(search, open, (count - 1) as nat);
    }
}

/// A claim is resolved as purchased only by what it asked for. The claim is this deployment's,
/// uncertain, and without a contract. The contract belongs to no command and to no other claim,
/// and contradicts no reference that the claim holds. It is an open contract, or a purchase in
/// the statement, and, unless a row of the statement carries the claim's own transaction
/// reference, its symbol, direction and price are each those of the claim's proposal, and its
/// purchase lies between the start of the signal's second and the end of the proposal's age,
/// duration and settlement delay.
#[verifier::rlimit(40)]
pub proof fn a_purchase_is_what_was_asked_for(
    found: Match,
    claim: Claim,
    deployment: Seq<char>,
    contracts: Map<Seq<char>, String>,
    claims: Map<Seq<char>, Claim>,
    bindings: Seq<Binding>,
    risks: Seq<RiskPolicy>,
    open: Seq<OpenContract>,
    rows: Seq<StatementRow>,
) -> (seen: (Seen, Signal, Proposal, int, int, i64))
    requires
        is_match(
            found,
            search_for(claim, deployment, contracts, claims, bindings, risks),
            open,
            rows,
        ),
        found is Purchased,
    ensures
        claim.deployment@ == deployment,
        claim.state is Claimed || claim.state is PossiblySent || claim.state is Accepted,
        forall|contract: Seq<char>| #[trigger]
            contracts.dom().contains(contract) ==> contracts[contract]@ != claim.command@,
        ({
            let (place, signal, proposal, b, r, age) = seen;
            let liability = found->Purchased_1;
            let debit = found->Purchased_0;
            let second = claim.signal.time_micros as int / 1_000_000;
            let end = second * 1_000_000 + age + proposal.duration_micros
                + proposal.max_settlement_delay_micros;
            &&& claim.signal.kind == EventKind::Signal(signal)
            &&& signal.proposal == Some(proposal)
            &&& 0 <= b < bindings.len() && bindings[b].id@ == signal.binding@
            &&& 0 <= r < risks.len() && risks[r].id@ == bindings[b].risk_policy@
            &&& risks[r].max_proposal_age_micros == Some(age)
            &&& !contracts.dom().contains(liability.contract_ref@)
            &&& forall|other: Seq<char>| #[trigger]
                claims.dom().contains(other) && claims[other].command@ != claim.command@ ==> !(
                claims[other].contract_ref matches Some(id) && id@ == liability.contract_ref@)
            &&& claim.contract_ref matches Some(id) ==> id@ == liability.contract_ref@
            &&& claim.transaction_ref matches Some(id) ==> id@ == liability.transaction_ref@
            &&& match place {
                Seen::Open(i) => {
                    &&& 0 <= i < open.len()
                    &&& liability.contract_ref == open[i].contract_ref
                    &&& liability.transaction_ref == open[i].transaction_ref
                    &&& liability.purchase_time_micros == open[i].purchase_time_micros
                    &&& liability.expected_start_micros == open[i].start_micros
                    &&& liability.payout == open[i].payout
                    &&& debit == open[i].buy_price
                    &&& open[i].instrument@ == symbol_of(proposal.instrument@)
                    &&& open[i].direction == proposal.direction
                    &&& debit.units * pow(10, proposal.quoted_cost.scale as nat)
                        == proposal.quoted_cost.units * pow(10, debit.scale as nat)
                    &&& second * 1_000_000 <= open[i].purchase_time_micros <= end
                },
                Seen::Row(i) => {
                    &&& 0 <= i < rows.len()
                    &&& rows[i].purchase == Some((debit, liability))
                    &&& (claim.transaction_ref matches Some(id) && id@
                        == liability.transaction_ref@) || {
                        &&& rows[i].instrument matches Some(instrument) && instrument@
                            == symbol_of(proposal.instrument@)
                        &&& rows[i].direction == Some(proposal.direction)
                        &&& debit.units * pow(10, proposal.quoted_cost.scale as nat)
                            == proposal.quoted_cost.units * pow(10, debit.scale as nat)
                        &&& second * 1_000_000 <= liability.purchase_time_micros <= end
                    }
                },
            }
        }),
{
    let search = search_for(claim, deployment, contracts, claims, bindings, risks)->0;
    let fitting = candidates(search, open, rows, rows.len());
    let liability = found->Purchased_1;
    let debit = found->Purchased_0;
    candidates_stay_finite(search, open, rows, rows.len());
    every_finite_set_is_listed(fitting.dom());
    let key = in_order(fitting.dom())[0];
    let place = seen_at(search, open, rows, rows.len(), key);
    let signal = claim.signal.kind->Signal_0;
    let proposal = search.proposal;
    let wanted = bindings_named(signal.binding@);
    first_where_meets(bindings, wanted);
    let b = binding_at(bindings, signal.binding@)->0;
    assert(wanted(bindings[b]));
    let policy = |risk: RiskPolicy| risk.id@ == bindings[b].risk_policy@;
    first_where_meets(risks, policy);
    let r = risk_at(risks, bindings[b].risk_policy@)->0;
    assert(policy(risks[r]));
    let age = age_limit_of(bindings, risks, signal.binding@)->0;
    same_amount_in_powers(debit, proposal.quoted_cost);
    assert forall|contract: Seq<char>| #[trigger] contracts.dom().contains(contract) implies
        contracts[contract]@ != claim.command@ by {}
    assert forall|other: Seq<char>| #[trigger]
        claims.dom().contains(other) && claims[other].command@ != claim.command@ implies !(
    claims[other].contract_ref matches Some(id) && id@ == liability.contract_ref@) by {
        let named = claims[other];
    }
    (place, signal, proposal, b, r, age)
}

/// Whether a purchase is as a proposal asked for it, between two moments.
pub open spec fn is_as_asked(
    proposal: Proposal,
    start: int,
    end: int,
    symbol: Seq<char>,
    direction: Direction,
    price: Decimal,
    at: i64,
) -> bool {
    &&& symbol == symbol_of(proposal.instrument@)
    &&& direction == proposal.direction
    &&& price.units * pow(10, proposal.quoted_cost.scale as nat) == proposal.quoted_cost.units
        * pow(10, price.scale as nat)
    &&& start <= at <= end
}

/// Whether a contract is free for a claim: no command has it, no other claim names it, and the
/// claim names no other.
pub open spec fn is_free(
    contracts: Map<Seq<char>, String>,
    claims: Map<Seq<char>, Claim>,
    claim: Claim,
    contract: Seq<char>,
    transaction: Seq<char>,
) -> bool {
    &&& !contracts.dom().contains(contract)
    &&& forall|other: Seq<char>| #[trigger]
        claims.dom().contains(other) && claims[other].command@ != claim.command@ ==> !(
        claims[other].contract_ref matches Some(id) && id@ == contract)
    &&& claim.contract_ref matches Some(id) ==> id@ == contract
    &&& claim.transaction_ref matches Some(id) ==> id@ == transaction
}

/// Whether the broker reports that a contract is the purchase of a claim.
pub open spec fn is_reported(
    claim: Claim,
    proposal: Proposal,
    start: int,
    end: int,
    contracts: Map<Seq<char>, String>,
    claims: Map<Seq<char>, Claim>,
    open: Seq<OpenContract>,
    rows: Seq<StatementRow>,
    contract: Seq<char>,
) -> bool {
    ||| exists|i: int|
        0 <= i < open.len() && (#[trigger] open[i]).contract_ref@ == contract && is_free(
            contracts,
            claims,
            claim,
            contract,
            open[i].transaction_ref@,
        ) && is_as_asked(
            proposal,
            start,
            end,
            open[i].instrument@,
            open[i].direction,
            open[i].buy_price,
            open[i].purchase_time_micros,
        )
    ||| exists|i: int|
        0 <= i < rows.len() && ((#[trigger] rows[i]).purchase matches Some((debit, liability)) && {
            &&& liability.contract_ref@ == contract
            &&& is_free(contracts, claims, claim, contract, liability.transaction_ref@)
            &&& claim.transaction_ref is Some || (rows[i].instrument matches Some(instrument)
                && rows[i].direction matches Some(direction) && is_as_asked(
                proposal,
                start,
                end,
                instrument@,
                direction,
                debit,
                liability.purchase_time_micros,
            ))
        })
}

proof fn free_is_uncorrelated(search: Search, contract: Seq<char>, transaction: Seq<char>)
    ensures
        is_free(search.contracts, search.claims, search.claim, contract, transaction) <==> (
        is_uncorrelated(search.contracts, search.claims, search.claim.command@, contract) && allows(
            search.claim.contract_ref,
            contract,
        ) && allows(search.claim.transaction_ref, transaction)),
{
    let claims = search.claims;
    if claimed_elsewhere(claims, search.claim.command@, contract) {
        let other = choose|other: Seq<char>|
            claims.dom().contains(other) && (#[trigger] claims[other]).command@
                != search.claim.command@ && text_of(claims[other].contract_ref) == Some(contract);
        assert(claims.dom().contains(other));
    } else {
        assert forall|other: Seq<char>| #[trigger]
            claims.dom().contains(other) && claims[other].command@ != search.claim.command@ implies
            !(claims[other].contract_ref matches Some(id) && id@ == contract) by {
            let named = claims[other];
        }
    }
}

proof fn open_candidates_are_reported(
    search: Search,
    open: Seq<OpenContract>,
    count: nat,
    contract: Seq<char>,
)
    requires
        count <= open.len(),
    ensures
        open_candidates(search, open, count).dom().contains(contract) <==> exists|i: int|
            0 <= i < count && (#[trigger] open[i]).contract_ref@ == contract && open_candidate(
                search,
                open[i],
            ),
    decreases count,
{
    if count > 0 {
        open_candidates_are_reported(search, open, (count - 1) as nat, contract);
    }
}

proof fn candidates_are_reported(
    search: Search,
    open: Seq<OpenContract>,
    rows: Seq<StatementRow>,
    count: nat,
    contract: Seq<char>,
)
    requires
        count <= rows.len(),
    ensures
        candidates(search, open, rows, count).dom().contains(contract) <==> (exists|i: int|
            0 <= i < open.len() && (#[trigger] open[i]).contract_ref@ == contract
                && open_candidate(search, open[i])) || (exists|i: int|
            0 <= i < count && row_candidate(search, #[trigger] rows[i]) && (
            rows[i].purchase matches Some((_, liability)) && liability.contract_ref@ == contract)),
    decreases count,
{
    if count == 0 {
        open_candidates_are_reported(search, open, open.len(), contract);
    } else {
        candidates_are_reported(search, open, rows, (count - 1) as nat, contract);
    }
}

proof fn reported_means_candidate(
    search: Search,
    open: Seq<OpenContract>,
    rows: Seq<StatementRow>,
    contract: Seq<char>,
)
    ensures
        candidates(search, open, rows, rows.len()).dom().contains(contract) <==> is_reported(
            search.claim,
            search.proposal,
            search.window.0,
            search.window.1,
            search.contracts,
            search.claims,
            open,
            rows,
            contract,
        ),
{
    candidates_are_reported(search, open, rows, rows.len(), contract);
    assert forall|i: int| 0 <= i < open.len() implies (open_candidate(search, #[trigger] open[i])
        <==> is_free(
        search.contracts,
        search.claims,
        search.claim,
        open[i].contract_ref@,
        open[i].transaction_ref@,
    ) && is_as_asked(
        search.proposal,
        search.window.0,
        search.window.1,
        open[i].instrument@,
        open[i].direction,
        open[i].buy_price,
        open[i].purchase_time_micros,
    )) by {
        free_is_uncorrelated(search, open[i].contract_ref@, open[i].transaction_ref@);
        same_amount_in_powers(open[i].buy_price, search.proposal.quoted_cost);
    }
    assert forall|i: int| 0 <= i < rows.len() implies (row_candidate(search, #[trigger] rows[i])
        <==> (rows[i].purchase matches Some((debit, liability)) && {
        &&& is_free(
            search.contracts,
            search.claims,
            search.claim,
            liability.contract_ref@,
            liability.transaction_ref@,
        )
        &&& search.claim.transaction_ref is Some || (rows[i].instrument matches Some(instrument)
            && rows[i].direction matches Some(direction) && is_as_asked(
            search.proposal,
            search.window.0,
            search.window.1,
            instrument@,
            direction,
            debit,
            liability.purchase_time_micros,
        ))
    })) by {
        if let Some((debit, liability)) = rows[i].purchase {
            free_is_uncorrelated(search, liability.contract_ref@, liability.transaction_ref@);
            same_amount_in_powers(debit, search.proposal.quoted_cost);
        }
    }
}

/// An uncertain claim that can be matched is resolved by the one contract that the broker reports
/// as its purchase, and stays in doubt where it reports none or several. A claim of another
/// deployment, one that is not uncertain, and one whose command has a contract are passed over.
#[verifier::rlimit(40)]
pub proof fn the_only_reported_purchase_resolves_a_claim(
    found: Match,
    claim: Claim,
    deployment: Seq<char>,
    contracts: Map<Seq<char>, String>,
    claims: Map<Seq<char>, Claim>,
    bindings: Seq<Binding>,
    risks: Seq<RiskPolicy>,
    open: Seq<OpenContract>,
    rows: Seq<StatementRow>,
    start: int,
    end: int,
)
    requires
        is_match(
            found,
            search_for(claim, deployment, contracts, claims, bindings, risks),
            open,
            rows,
        ),
        window_of(claim.signal, bindings, risks) == Some((start, end)),
        claim.signal.kind matches EventKind::Signal(signal) && signal.proposal is Some,
    ensures
        ({
            let proposal = claim.signal.kind->Signal_0.proposal->0;
            let uncertain = claim.deployment@ == deployment && (claim.state is Claimed
                || claim.state is PossiblySent || claim.state is Accepted);
            let has_one = exists|contract: Seq<char>| #[trigger]
                contracts.dom().contains(contract) && contracts[contract]@ == claim.command@;
            let reported = |contract: Seq<char>|
                is_reported(
                    claim,
                    proposal,
                    start,
                    end,
                    contracts,
                    claims,
                    open,
                    rows,
                    contract,
                );
            if !uncertain || has_one {
                found is Skip
            } else {
                &&& !(found is Skip)
                &&& found matches Match::Purchased(_, liability) ==> forall|contract: Seq<char>|
                    #[trigger]
                    reported(contract) <==> contract == liability.contract_ref@
                &&& found is Ambiguous ==> forall|contract: Seq<char>| #[trigger]
                    reported(contract) ==> exists|other: Seq<char>| #[trigger]
                        reported(other) && other != contract
            }
        }),
{
    let proposal = claim.signal.kind->Signal_0.proposal->0;
    if let Some(search) = search_for(claim, deployment, contracts, claims, bindings, risks) {
        let fitting = candidates(search, open, rows, rows.len());
        candidates_stay_finite(search, open, rows, rows.len());
        every_finite_set_is_listed(fitting.dom());
        let reported = |contract: Seq<char>|
            is_reported(
                claim,
                proposal,
                start,
                end,
                contracts,
                claims,
                open,
                rows,
                contract,
            );
        assert forall|contract: Seq<char>| #[trigger] reported(contract)
            <==> fitting.dom().contains(contract) by {
            reported_means_candidate(search, open, rows, contract);
        }
        if fitting.dom().len() == 1 {
            let key = in_order(fitting.dom())[0];
            let place = seen_at(search, open, rows, rows.len(), key);
            assert forall|contract: Seq<char>| #[trigger] reported(contract) implies contract
                == key by {
                let rest = fitting.dom().remove(key);
                assert(rest.len() == 0);
                assert(rest =~= Set::empty());
                if contract != key {
                    assert(rest.contains(contract));
                }
            }
        } else {
            assert forall|contract: Seq<char>| #[trigger] reported(contract) implies exists|
                other: Seq<char>,
            | #[trigger] reported(other) && other != contract by {
                let rest = fitting.dom().remove(contract);
                assert(rest.len() == fitting.dom().len() - 1);
                assert(fitting.dom().len() > 0) by {
                    if fitting.dom().len() == 0 {
                        assert(fitting.dom() =~= Set::empty());
                    }
                }
                let other = rest.choose();
                assert(rest.contains(other));
                assert(reported(other));
            }
        }
    } else {
        assert(claim.deployment@ != deployment || !(claim.state is Claimed || claim.state
            is PossiblySent || claim.state is Accepted) || has_contract(
            contracts,
            claim.command@,
        ));
        if has_contract(contracts, claim.command@) {
            let contract = choose|contract: Seq<char>|
                contracts.dom().contains(contract) && (#[trigger] contracts[contract])@
                    == claim.command@;
            assert(contracts.dom().contains(contract));
        }
    }
}

/// The window of a command begins with the second of its signal, and ends once the age that the
/// risk policy of its binding allows, the duration, and the settlement delay have passed; where
/// one of these sums is no time, there is none.
pub proof fn a_window_is_age_duration_and_delay(
    event: FinancialEvent,
    signal: Signal,
    proposal: Proposal,
    bindings: Seq<Binding>,
    risks: Seq<RiskPolicy>,
    b: int,
    r: int,
    age: i64,
)
    requires
        event.kind == EventKind::Signal(signal),
        signal.proposal == Some(proposal),
        0 <= b < bindings.len(),
        bindings[b].id@ == signal.binding@,
        forall|i: int| 0 <= i < b ==> (#[trigger] bindings[i]).id@ != signal.binding@,
        0 <= r < risks.len(),
        risks[r].id@ == bindings[b].risk_policy@,
        forall|i: int| 0 <= i < r ==> (#[trigger] risks[i]).id@ != bindings[b].risk_policy@,
        risks[r].max_proposal_age_micros == Some(age),
    ensures
        ({
            let start = event.time_micros as int / 1_000_000 * 1_000_000;
            let sent = start + age;
            let ended = sent + proposal.duration_micros;
            let settled = ended + proposal.max_settlement_delay_micros;
            if i64::MIN <= sent <= i64::MAX && i64::MIN <= ended <= i64::MAX && i64::MIN <= settled
                <= i64::MAX {
                window_of(event, bindings, risks) == Some((start, settled))
            } else {
                window_of(event, bindings, risks) is None
            }
        }),
{
    let wanted = bindings_named(signal.binding@);
    assert forall|i: int| 0 <= i < b implies !wanted(#[trigger] bindings[i]) by {}
    crate::search::first_where_found(bindings, wanted, b);
    let policy = |risk: RiskPolicy| risk.id@ == bindings[b].risk_policy@;
    assert forall|i: int| 0 <= i < r implies !policy(#[trigger] risks[i]) by {}
    crate::search::first_where_found(risks, policy, r);
}

} // verus!
