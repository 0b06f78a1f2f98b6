//! Reconciliation of uncertain commands with what the broker reports: which open contract or
//! statement row a claim's purchase became, and which lost contracts pay nothing.

use crate::live::control::{Claim, ClaimState};
use crate::live::due::{expiry_of, find_expiry};
use crate::live::finance::{
    same_amount, BrokerLiability, CashAction, CashFact, Decimal, Direction, EventKind,
    FinancialEvent, Proposal, Resolution, TerminalStatus,
};
use crate::live::journal::{Record, RecordKind};
use crate::live::lease::is_time;
use crate::live::receipt::{Binding, RiskPolicy};
use crate::market::{clamped, saturating_sum};
use crate::table::{in_order, lists, Table};
use crate::text::{same_text, text_of};
use vstd::prelude::*;
use vstd::string::*;

pub mod covering;
pub mod laws;

verus! {

/// The start of the second of a time.
pub open spec fn second_start(time_micros: int) -> int {
    time_micros / 1_000_000 * 1_000_000
}

/// The whole second of a time, rounded down.
pub fn whole_second(time_micros: i64) -> (second: i64)
    ensures
        second == time_micros as int / 1_000_000,
{
    let towards_zero: i64 = time_micros / 1_000_000;
    let rest: i64 = time_micros % 1_000_000;
    if rest < 0 {
        towards_zero - 1
    } else {
        towards_zero
    }
}

/// The proposal of a signal.
pub open spec fn proposal_of(signal: FinancialEvent) -> Option<Proposal> {
    match signal.kind {
        EventKind::Signal(signal) => signal.proposal,
        _ => None,
    }
}

/// The name of a signal's binding.
pub open spec fn binding_of(signal: FinancialEvent) -> Seq<char> {
    match signal.kind {
        EventKind::Signal(signal) => signal.binding@,
        _ => Seq::empty(),
    }
}

/// The last moment at which a command's purchase can still matter.
pub open spec fn window_end(start: int, age: i64, proposal: Proposal) -> Option<int> {
    let sent = start + age;
    let ended = sent + proposal.duration_micros;
    let settled = ended + proposal.max_settlement_delay_micros;
    if is_time(sent) && is_time(ended) && is_time(settled) {
        Some(settled)
    } else {
        None
    }
}

/// The window in which the purchase of a command must lie.
pub open spec fn window_of(
    signal: FinancialEvent,
    bindings: Seq<Binding>,
    risks: Seq<RiskPolicy>,
) -> Option<(int, int)> {
    match (
        proposal_of(signal),
        crate::live::dispatch::age_limit_of(bindings, risks, binding_of(signal)),
    ) {
        (Some(proposal), Some(age)) => {
            let start = second_start(signal.time_micros as int);
            match window_end(start, age, proposal) {
                Some(end) => Some((start, end)),
                None => None,
            }
        },
        _ => None,
    }
}

/// The window in which the purchase of a command must lie.
pub fn command_window(
    signal: &FinancialEvent,
    bindings: &Vec<Binding>,
    risks: &Vec<RiskPolicy>,
) -> (window: Option<(i64, i64)>)
    requires
        is_time(second_start(signal.time_micros as int)),
    ensures
        window matches Some((start, end)) ==> window_of(*signal, bindings@, risks@) == Some(
            (start as int, end as int),
        ),
        window is None ==> window_of(*signal, bindings@, risks@) is None,
{
    if let EventKind::Signal(decision) = &signal.kind {
        if let Some(proposal) = &decision.proposal {
            let age: i64 = match crate::live::dispatch::proposal_age_limit(
                bindings,
                risks,
                decision.binding.as_str(),
            ) {
                Some(age) => age,
                None => {
                    return None;
                },
            };
            let start: i64 = whole_second(signal.time_micros) * 1_000_000;
            if let Some(sent) = start.checked_add(age) {
                if let Some(ended) = sent.checked_add(proposal.duration_micros) {
                    if let Some(settled) = ended.checked_add(
                        proposal.max_settlement_delay_micros,
                    ) {
                        return Some((start, settled));
                    }
                }
            }
        }
    }
    None
}

/// A contract that the broker reports as open.
#[derive(Debug)]
pub struct OpenContract {
    pub contract_ref: String,
    pub transaction_ref: String,
    pub instrument: String,
    pub direction: Direction,
    pub buy_price: Decimal,
    pub purchase_time_micros: i64,
    pub start_micros: i64,
    pub payout: Decimal,
}

/// A row of the broker's statement, with the purchase that it proves.
#[derive(Debug)]
pub struct StatementRow {
    pub purchase: Option<(Decimal, BrokerLiability)>,
    pub instrument: Option<String>,
    pub direction: Option<Direction>,
    pub cash: CashFact,
    pub receipt_micros: i64,
}

/// Where the first colon of a text stands.
pub open spec fn colon_at(text: Seq<char>) -> Option<int> {
    crate::search::first_where(text, |c: char| c == ':')
}

/// The provider's symbol in the name of an instrument: what follows the first colon.
pub open spec fn symbol_of(instrument: Seq<char>) -> Seq<char> {
    match colon_at(instrument) {
        Some(at) => instrument.subrange(at + 1, instrument.len() as int),
        None => Seq::empty(),
    }
}

/// The provider's symbol in the name of an instrument.
pub fn symbol(instrument: &str) -> (symbol: String)
    ensures
        symbol@ == symbol_of(instrument@),
{
    let ghost colon = |c: char| c == ':';
    let length: usize = instrument.unicode_len();
    let mut i: usize = 0;
    while i < length
        invariant
            i <= length,
            length == instrument@.len(),
            colon == (|c: char| c == ':'),
            forall|j: int| 0 <= j < i ==> !colon(#[trigger] instrument@[j]),
        decreases length - i,
    {
        if instrument.get_char(i) == ':' {
            proof {
                crate::search::first_where_found(instrument@, colon, i as int);
            }
            return instrument.substring_char(i + 1, length).to_owned();
        }
        i = i + 1;
    }
    proof {
        crate::search::first_where_absent(instrument@, colon);
    }
    let none = String::new();
    assert(none@ =~= Seq::empty());
    none
}

/// Whether a purchase is the one that a proposal asked for, within its window.
pub open spec fn is_purchase_of(
    proposal: Proposal,
    window: (int, int),
    symbol: Seq<char>,
    direction: Direction,
    price: Decimal,
    at: i64,
) -> bool {
    let (start, end) = window;
    &&& symbol == symbol_of(proposal.instrument@)
    &&& direction == proposal.direction
    &&& same_amount(price, proposal.quoted_cost)
    &&& start <= at <= end
}

fn fits_proposal(
    proposal: &Proposal,
    window: (i64, i64),
    instrument: &str,
    direction: Direction,
    price: Decimal,
    at: i64,
) -> (fits: bool)
    ensures
        fits == is_purchase_of(
            *proposal,
            (window.0 as int, window.1 as int),
            instrument@,
            direction,
            price,
            at,
        ),
{
    let wanted = symbol(proposal.instrument.as_str());
    let (start, end) = window;
    same_text(instrument, wanted.as_str()) && direction == proposal.direction && price.same(
        proposal.quoted_cost,
    ) && start <= at && at <= end
}

/// Whether another claim refers to a contract.
pub open spec fn claimed_elsewhere(
    claims: Map<Seq<char>, Claim>,
    command: Seq<char>,
    contract: Seq<char>,
) -> bool {
    exists|other: Seq<char>|
        claims.dom().contains(other) && (#[trigger] claims[other]).command@ != command && text_of(
            claims[other].contract_ref,
        ) == Some(contract)
}

/// Whether a contract belongs to no command yet, and no other claim refers to it.
pub open spec fn is_uncorrelated(
    contracts: Map<Seq<char>, String>,
    claims: Map<Seq<char>, Claim>,
    command: Seq<char>,
    contract: Seq<char>,
) -> bool {
    !contracts.dom().contains(contract) && !claimed_elsewhere(claims, command, contract)
}

fn uncorrelated(
    contracts: &Table<String>,
    claims: &Table<Claim>,
    command: &str,
    contract: &str,
) -> (free: bool)
    ensures
        free == is_uncorrelated(contracts@, claims@, command@, contract@),
{
    if contracts.contains(contract) {
        return false;
    }
    let count: usize = claims.len();
    let mut i: usize = 0;
    while i < count
        invariant
            i <= count,
            count == claims.keys().len(),
            lists(claims.keys(), claims@.dom()),
            forall|j: int|
                0 <= j < count ==> claims@.dom().contains(#[trigger] claims.keys()[j]),
            forall|j: int|
                0 <= j < i ==> !(claims@[#[trigger] claims.keys()[j]].command@ != command@
                    && text_of(claims@[claims.keys()[j]].contract_ref) == Some(contract@)),
        decreases count - i,
    {
        let (other, claim) = claims.at(i);
        let refers: bool = match &claim.contract_ref {
            Some(id) => same_text(id.as_str(), contract),
            None => false,
        };
        if refers && !same_text(claim.command.as_str(), command) {
            assert(claims@[other@].command@ != command@);
            return false;
        }
        i = i + 1;
    }
    proof {
        if claimed_elsewhere(claims@, command@, contract@) {
            let other = choose|other: Seq<char>|
                claims@.dom().contains(other) && (#[trigger] claims@[other]).command@ != command@
                    && text_of(claims@[other].contract_ref) == Some(contract@);
            assert(claims.keys().to_set().contains(other));
            let j = choose|j: int| 0 <= j < count && claims.keys()[j] == other;
            assert(claims@[claims.keys()[j]].command@ != command@);
        }
    }
    true
}

/// Whether a reference that a claim holds, where it holds one, is this one.
pub open spec fn allows(reference: Option<String>, id: Seq<char>) -> bool {
    reference is None || text_of(reference) == Some(id)
}

fn allows_reference(reference: &Option<String>, id: &str) -> (allowed: bool)
    ensures
        allowed == allows(*reference, id@),
{
    match reference {
        Some(held) => same_text(held.as_str(), id),
        None => true,
    }
}

/// What a claim is matched with.
pub struct Search {
    pub claim: Claim,
    pub proposal: Proposal,
    pub window: (int, int),
    pub contracts: Map<Seq<char>, String>,
    pub claims: Map<Seq<char>, Claim>,
}

/// Whether an open contract may be the purchase of a claim.
pub open spec fn open_candidate(search: Search, contract: OpenContract) -> bool {
    &&& is_uncorrelated(
        search.contracts,
        search.claims,
        search.claim.command@,
        contract.contract_ref@,
    )
    &&& is_purchase_of(
        search.proposal,
        search.window,
        contract.instrument@,
        contract.direction,
        contract.buy_price,
        contract.purchase_time_micros,
    )
    &&& allows(search.claim.contract_ref, contract.contract_ref@)
    &&& allows(search.claim.transaction_ref, contract.transaction_ref@)
}

/// Whether a statement row may prove the purchase of a claim.
pub open spec fn row_candidate(search: Search, row: StatementRow) -> bool {
    match row.purchase {
        Some((debit, liability)) => {
            &&& is_uncorrelated(
                search.contracts,
                search.claims,
                search.claim.command@,
                liability.contract_ref@,
            )
            &&& text_of(search.claim.transaction_ref) == Some(liability.transaction_ref@) || (
            row.instrument is Some && row.direction is Some && is_purchase_of(
                search.proposal,
                search.window,
                row.instrument->0@,
                row.direction->0,
                debit,
                liability.purchase_time_micros,
            ))
            &&& allows(search.claim.contract_ref, liability.contract_ref@)
            &&& allows(search.claim.transaction_ref, liability.transaction_ref@)
        },
        None => false,
    }
}

/// The purchase that an open contract is.
pub open spec fn liability_of(contract: OpenContract) -> (Decimal, BrokerLiability) {
    (
        contract.buy_price,
        BrokerLiability {
            contract_ref: contract.contract_ref,
            transaction_ref: contract.transaction_ref,
            purchase_time_micros: contract.purchase_time_micros,
            expected_start_micros: contract.start_micros,
            payout: contract.payout,
        },
    )
}

/// The candidates among the first `count` open contracts.
pub open spec fn open_candidates(search: Search, open: Seq<OpenContract>, count: nat) -> Map<
    Seq<char>,
    (Decimal, BrokerLiability),
>
    decreases count,
{
    if count == 0 {
        Map::empty()
    } else {
        let before = open_candidates(search, open, (count - 1) as nat);
        let contract = open[count - 1];
        if open_candidate(search, contract) {
            before.insert(contract.contract_ref@, liability_of(contract))
        } else {
            before
        }
    }
}

/// The candidates among the open contracts and the first `count` statement rows.
pub open spec fn candidates(
    search: Search,
    open: Seq<OpenContract>,
    rows: Seq<StatementRow>,
    count: nat,
) -> Map<Seq<char>, (Decimal, BrokerLiability)>
    decreases count,
{
    if count == 0 {
        open_candidates(search, open, open.len())
    } else {
        let before = candidates(search, open, rows, (count - 1) as nat);
        let row = rows[count - 1];
        if row_candidate(search, row) {
            let (debit, liability) = row.purchase->0;
            if before.dom().contains(liability.contract_ref@) {
                before
            } else {
                before.insert(liability.contract_ref@, (debit, liability))
            }
        } else {
            before
        }
    }
}

/// What reconciliation makes of a claim.
#[derive(Debug)]
pub enum Match {
    /// It is not uncertain, or cannot be matched.
    Skip,
    /// Exactly one purchase fits: it is the claim's.
    Purchased(Decimal, BrokerLiability),
    /// None or several fit: the command stays possibly sent.
    Ambiguous,
}

/// Whether a command has its contract.
pub open spec fn has_contract(contracts: Map<Seq<char>, String>, command: Seq<char>) -> bool {
    exists|contract: Seq<char>|
        contracts.dom().contains(contract) && (#[trigger] contracts[contract])@ == command
}

/// The first contract of a command, by the order of the keys.
pub open spec fn contract_of(
    contracts: Map<Seq<char>, String>,
    keys: Seq<Seq<char>>,
    command: Seq<char>,
) -> Option<int> {
    crate::search::first_where(keys, |key: Seq<char>| contracts[key]@ == command)
}

fn find_contract_of(contracts: &Table<String>, command: &str) -> (found: Option<usize>)
    ensures
        found matches Some(at) ==> at < contracts.keys().len() && contract_of(
            contracts@,
            in_order(contracts@.dom()),
            command@,
        ) == Some(at as int),
        found is None ==> contract_of(contracts@, in_order(contracts@.dom()), command@) is None,
        found is Some == has_contract(contracts@, command@),
        contracts.keys() == in_order(contracts@.dom()),
{
    let count: usize = contracts.len();
    let ghost keys = contracts.keys();
    let ghost wanted = |key: Seq<char>| contracts@[key]@ == command@;
    let mut i: usize = 0;
    while i < count
        invariant
            i <= count,
            keys == contracts.keys(),
            keys == in_order(contracts@.dom()),
            count == keys.len(),
            lists(keys, contracts@.dom()),
            wanted == (|key: Seq<char>| contracts@[key]@ == command@),
            forall|j: int| 0 <= j < count ==> contracts@.dom().contains(#[trigger] keys[j]),
            forall|j: int| 0 <= j < i ==> !wanted(#[trigger] keys[j]),
        decreases count - i,
    {
        let (contract, owner) = contracts.at(i);
        if same_text(owner.as_str(), command) {
            proof {
                assert(wanted(keys[i as int]));
                crate::search::first_where_found(keys, wanted, i as int);
                assert(contracts@[contract@]@ == command@);
            }
            return Some(i);
        }
        i = i + 1;
    }
    proof {
        crate::search::first_where_absent(keys, wanted);
        if has_contract(contracts@, command@) {
            let contract = choose|contract: Seq<char>|
                contracts@.dom().contains(contract) && (#[trigger] contracts@[contract])@
                    == command@;
            assert(keys.to_set().contains(contract));
            let j = choose|j: int| 0 <= j < count && keys[j] == contract;
            assert(wanted(keys[j]));
        }
    }
    None
}

/// Whether a claim of this deployment may have bought something.
pub open spec fn is_sought(claim: Claim, deployment: Seq<char>) -> bool {
    claim.deployment@ == deployment && (claim.state is Claimed || claim.state is PossiblySent
        || claim.state is Accepted)
}

/// What is looked for on behalf of a claim, where it is uncertain and can be matched.
pub open spec fn search_for(
    claim: Claim,
    deployment: Seq<char>,
    contracts: Map<Seq<char>, String>,
    claims: Map<Seq<char>, Claim>,
    bindings: Seq<Binding>,
    risks: Seq<RiskPolicy>,
) -> Option<Search> {
    if !is_sought(claim, deployment) || has_contract(contracts, claim.command@) {
        None
    } else {
        match (proposal_of(claim.signal), window_of(claim.signal, bindings, risks)) {
            (Some(proposal), Some(window)) => Some(
                Search { claim, proposal, window, contracts, claims },
            ),
            _ => None,
        }
    }
}

fn from_open(
    claim: &Claim,
    proposal: &Proposal,
    window: (i64, i64),
    contracts: &Table<String>,
    claims: &Table<Claim>,
    open: &Vec<OpenContract>,
    Ghost(search): Ghost<Search>,
) -> (found: Table<(Decimal, BrokerLiability)>)
    requires
        search == (Search {
            claim: *claim,
            proposal: *proposal,
            window: (window.0 as int, window.1 as int),
            contracts: contracts@,
            claims: claims@,
        }),
    ensures
        found@ == open_candidates(search, open@, open@.len()),
{
    let mut found: Table<(Decimal, BrokerLiability)> = Table::new();
    let mut i: usize = 0;
    while i < open.len()
        invariant
            i <= open@.len(),
            search == (Search {
                claim: *claim,
                proposal: *proposal,
                window: (window.0 as int, window.1 as int),
                contracts: contracts@,
                claims: claims@,
            }),
            found@ == open_candidates(search, open@, i as nat),
        decreases open@.len() - i,
    {
        let contract = &open[i];
        if uncorrelated(
            contracts,
            claims,
            claim.command.as_str(),
            contract.contract_ref.as_str(),
        ) && fits_proposal(
            proposal,
            window,
            contract.instrument.as_str(),
            contract.direction,
            contract.buy_price,
            contract.purchase_time_micros,
        ) && allows_reference(&claim.contract_ref, contract.contract_ref.as_str())
            && allows_reference(&claim.transaction_ref, contract.transaction_ref.as_str()) {
            let liability = BrokerLiability {
                contract_ref: contract.contract_ref.clone(),
                transaction_ref: contract.transaction_ref.clone(),
                purchase_time_micros: contract.purchase_time_micros,
                expected_start_micros: contract.start_micros,
                payout: contract.payout,
            };
            found.insert(contract.contract_ref.clone(), (contract.buy_price, liability));
        }
        i = i + 1;
    }
    found
}

fn from_rows(
    found: &mut Table<(Decimal, BrokerLiability)>,
    claim: &Claim,
    proposal: &Proposal,
    window: (i64, i64),
    contracts: &Table<String>,
    claims: &Table<Claim>,
    rows: &Vec<StatementRow>,
    Ghost(search): Ghost<Search>,
    Ghost(open): Ghost<Seq<OpenContract>>,
)
    requires
        search == (Search {
            claim: *claim,
            proposal: *proposal,
            window: (window.0 as int, window.1 as int),
            contracts: contracts@,
            claims: claims@,
        }),
        old(found)@ == open_candidates(search, open, open.len()),
    ensures
        final(found)@ == candidates(search, open, rows@, rows@.len()),
{
    let mut i: usize = 0;
    while i < rows.len()
        invariant
            i <= rows@.len(),
            search == (Search {
                claim: *claim,
                proposal: *proposal,
                window: (window.0 as int, window.1 as int),
                contracts: contracts@,
                claims: claims@,
            }),
            found@ == candidates(search, open, rows@, i as nat),
        decreases rows@.len() - i,
    {
        let row = &rows[i];
        if let Some((debit, liability)) = &row.purchase {
            let references: bool = match &claim.transaction_ref {
                Some(id) => same_text(id.as_str(), liability.transaction_ref.as_str()),
                None => false,
            };
            let economics: bool = match (&row.instrument, row.direction) {
                (Some(instrument), Some(direction)) => fits_proposal(
                    proposal,
                    window,
                    instrument.as_str(),
                    direction,
                    *debit,
                    liability.purchase_time_micros,
                ),
                _ => false,
            };
            if uncorrelated(
                contracts,
                claims,
                claim.command.as_str(),
                liability.contract_ref.as_str(),
            ) && (references || economics) && allows_reference(
                &claim.contract_ref,
                liability.contract_ref.as_str(),
            ) && allows_reference(&claim.transaction_ref, liability.transaction_ref.as_str()) {
                if !found.contains(liability.contract_ref.as_str()) {
                    found.insert(liability.contract_ref.clone(), (*debit, liability.clone()));
                }
            }
        }
        i = i + 1;
    }
}

/// Whether reconciliation's finding about a claim is right.
pub open spec fn is_match(
    found: Match,
    search: Option<Search>,
    open: Seq<OpenContract>,
    rows: Seq<StatementRow>,
) -> bool {
    match search {
        None => found is Skip,
        Some(search) => {
            let fitting = candidates(search, open, rows, rows.len());
            if fitting.dom().len() == 1 {
                &&& found matches Match::Purchased(debit, liability)
                &&& fitting.dom().contains(in_order(fitting.dom())[0])
                &&& fitting[in_order(fitting.dom())[0]] == (debit, liability)
            } else {
                found is Ambiguous
            }
        },
    }
}

/// Matches an uncertain claim with what the broker reports.
pub fn match_claim(
    claim: &Claim,
    deployment: &str,
    contracts: &Table<String>,
    claims: &Table<Claim>,
    bindings: &Vec<Binding>,
    risks: &Vec<RiskPolicy>,
    open: &Vec<OpenContract>,
    rows: &Vec<StatementRow>,
) -> (found: Match)
    requires
        is_sought(*claim, deployment@) ==> is_time(
            second_start(claim.signal.time_micros as int),
        ),
    ensures
        is_match(
            found,
            search_for(*claim, deployment@, contracts@, claims@, bindings@, risks@),
            open@,
            rows@,
        ),
{
    if !same_text(claim.deployment.as_str(), deployment) {
        return Match::Skip;
    }
    let uncertain: bool = claim.state == ClaimState::Claimed || claim.state
        == ClaimState::PossiblySent || claim.state == ClaimState::Accepted;
    if !uncertain {
        return Match::Skip;
    }
    if find_contract_of(contracts, claim.command.as_str()).is_some() {
        return Match::Skip;
    }
    let window: (i64, i64) = match command_window(&claim.signal, bindings, risks) {
        Some(window) => window,
        None => {
            return Match::Skip;
        },
    };
    if let EventKind::Signal(decision) = &claim.signal.kind {
        if let Some(proposal) = &decision.proposal {
            let ghost search = Search {
                claim: *claim,
                proposal: *proposal,
                window: (window.0 as int, window.1 as int),
                contracts: contracts@,
                claims: claims@,
            };
            let mut found = from_open(
                claim,
                proposal,
                window,
                contracts,
                claims,
                open,
                Ghost(search),
            );
            from_rows(
                &mut found,
                claim,
                proposal,
                window,
                contracts,
                claims,
                rows,
                Ghost(search),
                Ghost(open@),
            );
            let count: usize = found.len();
            if count == 1 {
                assert(found@.dom().contains(found.keys()[0]));
                let (_, entry) = found.at(0);
                let (debit, liability) = entry;
                return Match::Purchased(*debit, liability.clone());
            }
            return Match::Ambiguous;
        }
    }
    Match::Skip
}

/// An ambiguous dispatch never becomes not sent because queries found nothing, or because they
/// found several: only a single purchase that fits resolves it, and then as purchased.
pub proof fn ambiguity_is_never_resolved_by_silence(
    found: Match,
    search: Search,
    open: Seq<OpenContract>,
    rows: Seq<StatementRow>,
)
    requires
        is_match(found, Some(search), open, rows),
        candidates(search, open, rows, rows.len()).dom().len() != 1,
    ensures
        found is Ambiguous,
{
}

/// A purchase that resolves a claim was not the purchase of any other command or claim, and
/// contradicts no reference that the claim holds.
pub proof fn a_match_is_uncorrelated(
    search: Search,
    open: Seq<OpenContract>,
    rows: Seq<StatementRow>,
    count: nat,
    contract: Seq<char>,
)
    requires
        count <= rows.len(),
        candidates(search, open, rows, count).dom().contains(contract),
    ensures
        is_uncorrelated(search.contracts, search.claims, search.claim.command@, contract),
        allows(search.claim.contract_ref, contract),
    decreases count,
{
    if count == 0 {
        an_open_match_is_uncorrelated(search, open, open.len(), contract);
    } else {
        let before = candidates(search, open, rows, (count - 1) as nat);
        if before.dom().contains(contract) {
            a_match_is_uncorrelated(search, open, rows, (count - 1) as nat, contract);
        }
    }
}

proof fn an_open_match_is_uncorrelated(
    search: Search,
    open: Seq<OpenContract>,
    count: nat,
    contract: Seq<char>,
)
    requires
        count <= open.len(),
        open_candidates(search, open, count).dom().contains(contract),
    ensures
        is_uncorrelated(search.contracts, search.claims, search.claim.command@, contract),
        allows(search.claim.contract_ref, contract),
    decreases count,
{
    if count > 0 {
        let before = open_candidates(search, open, (count - 1) as nat);
        if before.dom().contains(contract) {
            an_open_match_is_uncorrelated(search, open, (count - 1) as nat, contract);
        }
    }
}

/// The lost contracts that nothing has paid yet, by their commands, after the first `count`
/// records.
pub open spec fn losses_of(
    records: Seq<Record>,
    contracts: Map<Seq<char>, String>,
    count: nat,
) -> Map<Seq<char>, (Seq<char>, i64)>
    decreases count,
{
    if count == 0 {
        Map::empty()
    } else {
        let before = losses_of(records, contracts, (count - 1) as nat);
        match records[count - 1].kind {
            RecordKind::Ledger { event } => match event.kind {
                EventKind::Unresolved { command, terminal: Some(terminal), .. } => {
                    let keys = in_order(contracts.dom());
                    match (
                        contract_of(contracts, keys, command@),
                        expiry_of(records, command@),
                    ) {
                        (Some(at), Some(expiry)) => if terminal.status is Lost {
                            before.insert(command@, (keys[at], expiry))
                        } else {
                            before
                        },
                        _ => before,
                    }
                },
                EventKind::Settled { command, .. } => before.remove(command@),
                EventKind::Reconciled { command, resolution, .. } => if resolution is Settled {
                    before.remove(command@)
                } else {
                    before
                },
                _ => before,
            },
            _ => before,
        }
    }
}

/// The contract and the expiry of lost contracts.
pub open spec fn loss_views(losses: Map<Seq<char>, (String, i64)>) -> Map<
    Seq<char>,
    (Seq<char>, i64),
> {
    losses.map_values(
        |loss: (String, i64)|
            {
                let (contract, expiry) = loss;
                (contract@, expiry)
            },
    )
}

/// The lost contracts that nothing has paid yet, by their commands.
pub fn unpaid_losses(records: &Vec<Record>, contracts: &Table<String>) -> (losses: Table<
    (String, i64),
>)
    ensures
        loss_views(losses@) == losses_of(records@, contracts@, records@.len()),
{
    let mut losses: Table<(String, i64)> = Table::new();
    let mut i: usize = 0;
    assert(loss_views(losses@) =~= losses_of(records@, contracts@, 0));
    while i < records.len()
        invariant
            i <= records@.len(),
            loss_views(losses@) == losses_of(records@, contracts@, i as nat),
        decreases records@.len() - i,
    {
        let ghost before = losses@;
        if let RecordKind::Ledger { event } = &records[i].kind {
            match &event.kind {
                EventKind::Unresolved { command, terminal: Some(terminal), .. } => {
                    let found = find_contract_of(contracts, command.as_str());
                    let expiry = find_expiry(records, command.as_str());
                    if terminal.status == TerminalStatus::Lost {
                        if let (Some(at), Some(expiry)) = (found, expiry) {
                            let (contract, _) = contracts.at(at);
                            losses.insert(command.clone(), (contract.to_owned(), expiry));
                            assert(loss_views(losses@) =~= loss_views(before).insert(
                                command@,
                                (contract@, expiry),
                            ));
                        }
                    }
                },
                EventKind::Settled { command, .. } => {
                    let _ = losses.remove(command.as_str());
                    assert(loss_views(losses@) =~= loss_views(before).remove(command@));
                },
                EventKind::Reconciled { command, resolution, .. } => {
                    if let Resolution::Settled { .. } = resolution {
                        let _ = losses.remove(command.as_str());
                        assert(loss_views(losses@) =~= loss_views(before).remove(command@));
                    }
                },
                _ => {},
            }
        }
        i = i + 1;
    }
    losses
}

/// The smaller of two moments, where there are two.
pub open spec fn sooner(a: Option<int>, b: int) -> Option<int> {
    match a {
        Some(a) => Some(if a <= b {
            a
        } else {
            b
        }),
        None => Some(b),
    }
}

/// The second of the earliest signal among the first `count` claims of a deployment.
pub open spec fn earliest_claim(
    claims: Map<Seq<char>, Claim>,
    deployment: Seq<char>,
    keys: Seq<Seq<char>>,
    count: nat,
) -> Option<int>
    decreases count,
{
    if count == 0 {
        None
    } else {
        let before = earliest_claim(claims, deployment, keys, (count - 1) as nat);
        let claim = claims[keys[count - 1]];
        if claim.deployment@ == deployment {
            sooner(before, claim.signal.time_micros as int / 1_000_000)
        } else {
            before
        }
    }
}

/// That second, or the second of the earliest expiry among the first `count` losses.
pub open spec fn earliest_loss(
    start: Option<int>,
    losses: Map<Seq<char>, (String, i64)>,
    keys: Seq<Seq<char>>,
    count: nat,
) -> Option<int>
    decreases count,
{
    if count == 0 {
        start
    } else {
        let (_, expiry) = losses[keys[count - 1]];
        sooner(
            earliest_loss(start, losses, keys, (count - 1) as nat),
            expiry as int / 1_000_000,
        )
    }
}

/// Since which second a statement must be asked for.
pub open spec fn statement_start(
    claims: Map<Seq<char>, Claim>,
    deployment: Seq<char>,
    losses: Map<Seq<char>, (String, i64)>,
    now: i64,
) -> int {
    let claim_keys = in_order(claims.dom());
    let loss_keys = in_order(losses.dom());
    match earliest_loss(
        earliest_claim(claims, deployment, claim_keys, claim_keys.len()),
        losses,
        loss_keys,
        loss_keys.len(),
    ) {
        Some(second) => second,
        None => now as int / 1_000_000,
    }
}

/// Since which second, and through which, a statement must be asked for: it covers every claim
/// of this deployment and every unpaid loss.
pub fn statement_range(
    claims: &Table<Claim>,
    deployment: &str,
    losses: &Table<(String, i64)>,
    now: i64,
) -> (range: (i64, i64))
    ensures
        range.0 == statement_start(claims@, deployment@, losses@, now),
        range.1 == now as int / 1_000_000,
{
    let mut earliest: Option<i64> = None;
    let count: usize = claims.len();
    let ghost claim_keys = claims.keys();
    let mut i: usize = 0;
    while i < count
        invariant
            i <= count,
            claim_keys == claims.keys(),
            count == claim_keys.len(),
            (match earliest {
                Some(second) => Some(second as int),
                None => None,
            }) == earliest_claim(claims@, deployment@, claim_keys, i as nat),
        decreases count - i,
    {
        let (_, claim) = claims.at(i);
        if same_text(claim.deployment.as_str(), deployment) {
            let second: i64 = whole_second(claim.signal.time_micros);
            earliest = match earliest {
                Some(before) => Some(if before <= second { before } else { second }),
                None => Some(second),
            };
        }
        i = i + 1;
    }
    let ghost start = earliest_claim(claims@, deployment@, claim_keys, claim_keys.len());
    let total: usize = losses.len();
    let ghost loss_keys = losses.keys();
    let mut k: usize = 0;
    while k < total
        invariant
            k <= total,
            loss_keys == losses.keys(),
            total == loss_keys.len(),
            (match earliest {
                Some(second) => Some(second as int),
                None => None,
            }) == earliest_loss(start, losses@, loss_keys, k as nat),
        decreases total - k,
    {
        let (_, loss) = losses.at(k);
        let (_, expiry) = loss;
        let second: i64 = whole_second(*expiry);
        earliest = match earliest {
            Some(before) => Some(if before <= second { before } else { second }),
            None => Some(second),
        };
        k = k + 1;
    }
    let through: i64 = whole_second(now);
    match earliest {
        Some(from) => (from, through),
        None => (through, through),
    }
}

/// Whether a statement row credits the sale of a contract.
pub open spec fn sells(row: StatementRow, contract: Seq<char>) -> bool {
    row.cash.action is Sell && text_of(row.cash.contract_ref) == Some(contract)
}

/// Whether a lost contract is known to pay nothing: its settlement horizon has passed, the
/// statement covers it whole, and no row credits it.
pub open spec fn pays_nothing(
    contract: Seq<char>,
    expiry: i64,
    delay: i64,
    observed_now: i64,
    from: i64,
    through: i64,
    rows: Seq<StatementRow>,
) -> bool {
    let horizon = clamped(expiry + delay);
    &&& observed_now >= horizon
    &&& through * 1_000_000 >= horizon
    &&& from * 1_000_000 <= expiry
    &&& forall|i: int| 0 <= i < rows.len() ==> !sells(#[trigger] rows[i], contract)
}

/// Decides whether a lost contract is known to pay nothing.
pub fn settles_at_zero(
    contract: &str,
    expiry: i64,
    delay: i64,
    observed_now: i64,
    from: i64,
    through: i64,
    rows: &Vec<StatementRow>,
) -> (zero: bool)
    ensures
        zero == pays_nothing(contract@, expiry, delay, observed_now, from, through, rows@),
{
    let horizon: i64 = saturating_sum(expiry, delay);
    if observed_now < horizon || (through as i128) * 1_000_000 < horizon as i128 || (from as i128)
        * 1_000_000 > expiry as i128 {
        return false;
    }
    let mut i: usize = 0;
    while i < rows.len()
        invariant
            i <= rows@.len(),
            forall|j: int| 0 <= j < i ==> !sells(#[trigger] rows@[j], contract@),
        decreases rows@.len() - i,
    {
        let sale: bool = rows[i].cash.action == CashAction::Sell && match &rows[i].cash.contract_ref {
            Some(id) => same_text(id.as_str(), contract),
            None => false,
        };
        if sale {
            assert(sells(rows@[i as int], contract@));
            return false;
        }
        i = i + 1;
    }
    true
}

/// Whether the broker holds a contract of no command.
pub open spec fn holds_stranger(open: Seq<OpenContract>, contracts: Map<Seq<char>, String>) -> bool {
    exists|i: int|
        0 <= i < open.len() && !contracts.dom().contains((#[trigger] open[i]).contract_ref@)
}

/// Whether the broker holds a contract of no command.
pub fn uncorrelated_liability(open: &Vec<OpenContract>, contracts: &Table<String>) -> (found: bool)
    ensures
        found == holds_stranger(open@, contracts@),
{
    let mut i: usize = 0;
    while i < open.len()
        invariant
            i <= open@.len(),
            forall|j: int|
                0 <= j < i ==> contracts@.dom().contains((#[trigger] open@[j]).contract_ref@),
        decreases open@.len() - i,
    {
        if !contracts.contains(open[i].contract_ref.as_str()) {
            assert(!contracts@.dom().contains(open@[i as int].contract_ref@));
            return true;
        }
        i = i + 1;
    }
    false
}

} // verus!
