//! What a whole statement of the broker settles: every uncertain claim, one after the other, and
//! every lost contract that pays nothing.

use crate::live::claims::{is_signal_of, signals};
use crate::live::control::{Claim, ClaimState};
use crate::live::deployment::Mode;
use crate::live::finance::EventKind;
use crate::live::journal::{Record, RecordKind};
use crate::live::lease::is_time;
use crate::live::receipt::{Binding, RiskPolicy};
use crate::live::reconcile::{
    candidates, is_sought, loss_views, losses_of, match_claim, open_candidates, pays_nothing,
    proposal_of, search_for, second_start, settles_at_zero, unpaid_losses, Match, OpenContract,
    Search, StatementRow,
};
use crate::live::steps::{
    acts_on_match, is_zero_credit, match_steps, zero_credit, Action, Told,
};
use crate::search::{first_where, first_where_absent, first_where_found};
use crate::table::{in_order, Table};
use vstd::prelude::*;
use vstd::string::*;

verus! {

/// What reconciliation makes of a claim.
pub open spec fn match_of(
    search: Option<Search>,
    open: Seq<OpenContract>,
    rows: Seq<StatementRow>,
) -> Match {
    match search {
        None => Match::Skip,
        Some(search) => {
            let fitting = candidates(search, open, rows, rows.len());
            if fitting.dom().len() == 1 {
                let (debit, liability) = fitting[in_order(fitting.dom())[0]];
                Match::Purchased(debit, liability)
            } else {
                Match::Ambiguous
            }
        },
    }
}

/// The claims and the contracts of commands while a statement is gone through.
pub struct Matching {
    pub claims: Map<Seq<char>, Claim>,
    pub contracts: Map<Seq<char>, String>,
}

/// What is known once a claim was looked for: a purchase ties its contract to the claim's command,
/// and a claim with none or several stays possibly sent.
pub open spec fn after_match(before: Matching, claim: Claim, found: Match) -> Matching {
    match found {
        Match::Skip => before,
        Match::Purchased(_, liability) => Matching {
            claims: before.claims.insert(
                claim.command@,
                Claim {
                    state: ClaimState::Accepted,
                    contract_ref: Some(liability.contract_ref),
                    transaction_ref: Some(liability.transaction_ref),
                    ..claim
                },
            ),
            contracts: before.contracts.insert(liability.contract_ref@, claim.command),
        },
        Match::Ambiguous => Matching {
            claims: before.claims.insert(
                claim.command@,
                Claim { state: ClaimState::PossiblySent, ..claim },
            ),
            ..before
        },
    }
}

/// What claims are matched by.
pub struct Statement<'a> {
    pub deployment: Seq<char>,
    pub bindings: &'a Vec<Binding>,
    pub risks: &'a Vec<RiskPolicy>,
    pub open: &'a Vec<OpenContract>,
    pub rows: &'a Vec<StatementRow>,
}

impl<'a> Statement<'a> {
    /// What is made of a claim, given what is known so far.
    pub open spec fn finding(self, known: Matching, claim: Claim) -> Match {
        match_of(
            search_for(
                claim,
                self.deployment,
                known.contracts,
                known.claims,
                self.bindings@,
                self.risks@,
            ),
            self.open@,
            self.rows@,
        )
    }

    /// What is known once the first `count` claims were looked for, in the order of their
    /// commands.
    pub open spec fn known(self, start: Matching, count: nat) -> Matching
        decreases count,
    {
        if count == 0 {
            start
        } else {
            let before = self.known(start, (count - 1) as nat);
            let claim = start.claims[in_order(start.claims.dom())[count - 1]];
            after_match(before, claim, self.finding(before, claim))
        }
    }

    /// What is made of the claim at a place in the order of commands.
    pub open spec fn finding_at(self, start: Matching, i: int) -> Match {
        self.finding(
            self.known(start, i as nat),
            start.claims[in_order(start.claims.dom())[i]],
        )
    }
}

/// Whether claims stand under their commands.
pub open spec fn under_commands(claims: Map<Seq<char>, Claim>) -> bool {
    forall|command: Seq<char>| #[trigger]
        claims.dom().contains(command) ==> claims[command].command@ == command
}

/// Whether the second of every signal that may have bought something can be named.
pub open spec fn can_be_dated(claims: Map<Seq<char>, Claim>, deployment: Seq<char>) -> bool {
    forall|command: Seq<char>| #[trigger]
        claims.dom().contains(command) && is_sought(claims[command], deployment) ==> is_time(
            second_start(claims[command].signal.time_micros as int),
        )
}

proof fn later_claims_are_untouched(statement: Statement, start: Matching, count: nat)
    requires
        start.claims.dom().finite(),
        under_commands(start.claims),
        count <= in_order(start.claims.dom()).len(),
    ensures
        statement.known(start, count).claims.dom() == start.claims.dom(),
        under_commands(statement.known(start, count).claims),
        forall|i: int|
            count <= i < in_order(start.claims.dom()).len() ==> statement.known(
                start,
                count,
            ).claims[#[trigger] in_order(start.claims.dom())[i]]
                == start.claims[in_order(start.claims.dom())[i]],
    decreases count,
{
    let keys = in_order(start.claims.dom());
    crate::table::every_finite_set_is_listed(start.claims.dom());
    if count > 0 {
        let at = count - 1;
        later_claims_are_untouched(statement, start, at as nat);
        let before = statement.known(start, at as nat);
        assert(keys.to_set().contains(keys[at]));
        assert(statement.known(start, count).claims.dom() =~= start.claims.dom());
        assert forall|i: int| count <= i < keys.len() implies statement.known(
            start,
            count,
        ).claims[#[trigger] keys[i]] == start.claims[keys[i]] by {
            assert(crate::text::text_before(keys[at], keys[i]));
            crate::text::text_order(keys[at], keys[i], keys[at]);
        }
    }
}

/// Looks for every uncertain claim in what the broker reports, in the order of their commands, and
/// says for each what is done. A contract that one claim was tied to is closed to those after it.
pub fn match_claims(
    claims: &mut Table<Claim>,
    contracts: &mut Table<String>,
    deployment: &str,
    bindings: &Vec<Binding>,
    risks: &Vec<RiskPolicy>,
    open: &Vec<OpenContract>,
    rows: &Vec<StatementRow>,
    now: i64,
    mode: Mode,
) -> (actions: Vec<Vec<Action>>)
    requires
        under_commands(old(claims)@),
        can_be_dated(old(claims)@, deployment@),
    ensures
        ({
            let start = Matching { claims: old(claims)@, contracts: old(contracts)@ };
            let keys = in_order(old(claims)@.dom());
            let statement = Statement { deployment: deployment@, bindings, risks, open, rows };
            &&& actions@.len() == keys.len()
            &&& statement.known(start, keys.len()) == (Matching {
                claims: final(claims)@,
                contracts: final(contracts)@,
            })
            &&& forall|i: int|
                0 <= i < keys.len() ==> acts_on_match(
                    (#[trigger] actions@[i])@,
                    old(claims)@[keys[i]],
                    statement.finding_at(start, i),
                    now,
                    mode,
                )
        }),
{
    let ghost start = Matching { claims: claims@, contracts: contracts@ };
    let ghost keys = in_order(claims@.dom());
    let ghost statement = Statement { deployment: deployment@, bindings, risks, open, rows };
    let count: usize = claims.len();
    let mut actions: Vec<Vec<Action>> = Vec::new();
    let mut i: usize = 0;
    while i < count
        invariant
            i <= count,
            count == keys.len(),
            start.claims.dom().finite(),
            under_commands(start.claims),
            can_be_dated(start.claims, deployment@),
            keys == in_order(start.claims.dom()),
            statement == (Statement { deployment: deployment@, bindings, risks, open, rows }),
            statement.known(start, i as nat) == (Matching {
                claims: claims@,
                contracts: contracts@,
            }),
            actions@.len() == i,
            forall|j: int|
                0 <= j < i ==> acts_on_match(
                    (#[trigger] actions@[j])@,
                    start.claims[keys[j]],
                    statement.finding_at(start, j),
                    now,
                    mode,
                ),
        decreases count - i,
    {
        let ghost known = Matching { claims: claims@, contracts: contracts@ };
        proof {
            later_claims_are_untouched(statement, start, i as nat);
        }
        let _ = claims.len();
        let claim: Claim = {
            let (_, held) = claims.at(i);
            held.clone()
        };
        assert(claim == start.claims[keys[i as int]]);
        let found = match_claim(&claim, deployment, contracts, claims, bindings, risks, open, rows);
        assert(found == statement.finding(known, claim));
        if let Match::Purchased(_, liability) = &found {
            let accepted = Claim {
                command: claim.command.clone(),
                claim: claim.claim.clone(),
                deployment: claim.deployment.clone(),
                token: claim.token,
                max_proposal_age_micros: claim.max_proposal_age_micros,
                signal: claim.signal.clone(),
                state: ClaimState::Accepted,
                contract_ref: Some(liability.contract_ref.clone()),
                transaction_ref: Some(liability.transaction_ref.clone()),
            };
            claims.insert(claim.command.clone(), accepted);
            contracts.insert(liability.contract_ref.clone(), claim.command.clone());
        }
        let done = match_steps(claims, &claim, found, now, mode);
        assert(statement.known(start, (i + 1) as nat) == after_match(
            known,
            claim,
            statement.finding(known, claim),
        ));
        assert(statement.finding_at(start, i as int) == found);
        actions.push(done);
        i = i + 1;
    }
    actions
}

proof fn candidates_are_free(
    search: Search,
    open: Seq<OpenContract>,
    rows: Seq<StatementRow>,
    count: nat,
    contract: Seq<char>,
)
    requires
        candidates(search, open, rows, count).dom().contains(contract),
        count <= rows.len(),
    ensures
        !search.contracts.dom().contains(contract),
        candidates(search, open, rows, count)[contract].1.contract_ref@ == contract,
    decreases count,
{
    if count > 0 {
        let before = candidates(search, open, rows, (count - 1) as nat);
        if before.dom().contains(contract) {
            candidates_are_free(search, open, rows, (count - 1) as nat, contract);
        }
    } else {
        open_candidates_are_free(search, open, open.len(), contract);
    }
}

proof fn open_candidates_are_free(
    search: Search,
    open: Seq<OpenContract>,
    count: nat,
    contract: Seq<char>,
)
    requires
        open_candidates(search, open, count).dom().contains(contract),
        count <= open.len(),
    ensures
        !search.contracts.dom().contains(contract),
        open_candidates(search, open, count)[contract].1.contract_ref@ == contract,
    decreases count,
{
    if count > 0 {
        let before = open_candidates(search, open, (count - 1) as nat);
        if before.dom().contains(contract) {
            open_candidates_are_free(search, open, (count - 1) as nat, contract);
        }
    }
}

proof fn candidates_are_finite(
    search: Search,
    open: Seq<OpenContract>,
    rows: Seq<StatementRow>,
    count: nat,
)
    ensures
        candidates(search, open, rows, count).dom().finite(),
    decreases count,
{
    if count > 0 {
        candidates_are_finite(search, open, rows, (count - 1) as nat);
    } else {
        open_candidates_are_finite(search, open, open.len());
    }
}

proof fn open_candidates_are_finite(search: Search, open: Seq<OpenContract>, count: nat)
    ensures
        open_candidates(search, open, count).dom().finite(),
    decreases count,
{
    if count > 0 {
        open_candidates_are_finite(search, open, (count - 1) as nat);
    }
}

proof fn a_purchase_was_free(statement: Statement, known: Matching, claim: Claim)
    ensures
        statement.finding(known, claim) matches Match::Purchased(_, liability)
            ==> !known.contracts.dom().contains(liability.contract_ref@),
{
    if let Some(search) = search_for(
        claim,
        statement.deployment,
        known.contracts,
        known.claims,
        statement.bindings@,
        statement.risks@,
    ) {
        let rows = statement.rows@;
        let fitting = candidates(search, statement.open@, rows, rows.len());
        if fitting.dom().len() == 1 {
            candidates_are_finite(search, statement.open@, rows, rows.len());
            crate::table::every_finite_set_is_listed(fitting.dom());
            let keys = in_order(fitting.dom());
            assert(keys.len() > 0) by {
                if keys.len() == 0 {
                    assert(keys.to_set() =~= Set::<Seq<char>>::empty());
                }
            }
            assert(keys.to_set().contains(keys[0]));
            candidates_are_free(search, statement.open@, rows, rows.len(), keys[0]);
        }
    }
}

proof fn ties_stay(statement: Statement, start: Matching, i: nat, j: nat, contract: Seq<char>)
    requires
        i <= j,
        statement.known(start, i).contracts.dom().contains(contract),
    ensures
        statement.known(start, j).contracts.dom().contains(contract),
    decreases j,
{
    if i < j {
        ties_stay(statement, start, i, (j - 1) as nat, contract);
    }
}

/// No contract is given to two claims: what one of them bought is closed to all after it, and what
/// belongs to a command already is never given out.
pub proof fn no_contract_is_matched_twice(
    statement: Statement,
    start: Matching,
    i: int,
    j: int,
)
    requires
        0 <= i < j,
    ensures
        (statement.finding_at(start, i), statement.finding_at(start, j)) matches (
            Match::Purchased(_, first),
            Match::Purchased(_, second),
        ) ==> first.contract_ref@ != second.contract_ref@ && !start.contracts.dom().contains(
            second.contract_ref@,
        ),
{
    if let (Match::Purchased(_, first), Match::Purchased(_, second)) = (
        statement.finding_at(start, i),
        statement.finding_at(start, j),
    ) {
        let keys = in_order(start.claims.dom());
        a_purchase_was_free(statement, statement.known(start, j as nat), start.claims[keys[j]]);
        assert(statement.known(start, (i + 1) as nat).contracts.dom().contains(
            first.contract_ref@,
        ));
        ties_stay(statement, start, (i + 1) as nat, j as nat, first.contract_ref@);
        if start.contracts.dom().contains(second.contract_ref@) {
            ties_stay(statement, start, 0, j as nat, second.contract_ref@);
        }
    }
}

/// Whether a record is the signal of a command.
pub open spec fn is_signal_record(command: Seq<char>) -> spec_fn(Record) -> bool {
    |record: Record| record.kind matches RecordKind::Ledger { event } && signals(event, command)
}

/// How long the contract of a command may take to settle: as its signal was offered. A command
/// without a signal in the records, or whose signal has no offer, has none.
pub open spec fn delay_of(records: Seq<Record>, command: Seq<char>) -> Option<i64> {
    match first_where(records, is_signal_record(command)) {
        None => None,
        Some(at) => match records[at].kind {
            RecordKind::Ledger { event } => match proposal_of(event) {
                Some(proposal) => Some(proposal.max_settlement_delay_micros),
                None => None,
            },
            _ => None,
        },
    }
}

/// How long the contract of a command may take to settle.
pub fn settlement_delay(records: &Vec<Record>, command: &str) -> (delay: Option<i64>)
    ensures
        delay == delay_of(records@, command@),
{
    let ghost wanted = is_signal_record(command@);
    let mut i: usize = 0;
    while i < records.len()
        invariant
            i <= records@.len(),
            wanted == is_signal_record(command@),
            forall|j: int| 0 <= j < i ==> !wanted(#[trigger] records@[j]),
        decreases records@.len() - i,
    {
        if let RecordKind::Ledger { event } = &records[i].kind {
            if is_signal_of(event, command) {
                proof {
                    assert(wanted(records@[i as int]));
                    first_where_found(records@, wanted, i as int);
                }
                return match &event.kind {
                    EventKind::Signal(signal) => match &signal.proposal {
                        Some(proposal) => Some(proposal.max_settlement_delay_micros),
                        None => None,
                    },
                    _ => None,
                };
            }
        }
        i = i + 1;
    }
    proof {
        first_where_absent(records@, wanted);
    }
    None
}

/// The moment up to which facts were observed: the control database's, or the market's where that
/// is later.
pub fn observed_now(control_time: i64, last_provider_time: Option<i64>) -> (now: i64)
    ensures
        now == (match last_provider_time {
            Some(time) => if time > control_time {
                time
            } else {
                control_time
            },
            None => control_time,
        }),
{
    match last_provider_time {
        Some(time) => if time > control_time {
            time
        } else {
            control_time
        },
        None => control_time,
    }
}

/// What a statement covers, and until when facts were observed.
#[derive(Debug, Clone, Copy)]
pub struct Covered {
    pub observed_now: i64,
    /// The first and last second of the statement.
    pub from: i64,
    pub through: i64,
}

/// Whether the lost contract of a command is settled at zero.
pub open spec fn is_settled_at_zero(
    records: Seq<Record>,
    command: Seq<char>,
    contract: Seq<char>,
    expiry: i64,
    covered: Covered,
    rows: Seq<StatementRow>,
) -> bool {
    delay_of(records, command) matches Some(delay) && pays_nothing(
        contract,
        expiry,
        delay,
        covered.observed_now,
        covered.from,
        covered.through,
        rows,
    )
}

/// The commands among the first `count` whose lost contracts are settled at zero, in order.
pub open spec fn settled_at_zero(
    records: Seq<Record>,
    losses: Map<Seq<char>, (Seq<char>, i64)>,
    covered: Covered,
    rows: Seq<StatementRow>,
    count: nat,
) -> Seq<Seq<char>>
    decreases count,
{
    if count == 0 {
        Seq::empty()
    } else {
        let before = settled_at_zero(records, losses, covered, rows, (count - 1) as nat);
        let command = in_order(losses.dom())[count - 1];
        let (contract, expiry) = losses[command];
        if is_settled_at_zero(records, command, contract, expiry, covered, rows) {
            before.push(command)
        } else {
            before
        }
    }
}

/// Whether the engine is told of exactly the lost contracts that are settled at zero, in the order
/// of their commands.
pub open spec fn tells_zero_credits(
    told: Seq<Told>,
    records: Seq<Record>,
    losses: Map<Seq<char>, (Seq<char>, i64)>,
    covered: Covered,
    rows: Seq<StatementRow>,
    received: i64,
    now: i64,
    mode: Mode,
) -> bool {
    let settled = settled_at_zero(records, losses, covered, rows, in_order(losses.dom()).len());
    &&& told.len() == settled.len()
    &&& forall|i: int|
        0 <= i < settled.len() ==> is_zero_credit(
            #[trigger] told[i],
            settled[i],
            losses[settled[i]].1,
            received,
            now,
            mode,
        )
}

/// What the engine is told of the lost contracts that nothing has paid: each whose settlement
/// horizon has passed within the statement, and which no row credits, is a loss of nothing more.
/// One whose command has no signal with an offer among the records is passed over.
pub fn zero_credits(
    records: &Vec<Record>,
    contracts: &Table<String>,
    covered: Covered,
    rows: &Vec<StatementRow>,
    received: i64,
    now: i64,
    mode: Mode,
) -> (told: Vec<Told>)
    ensures
        tells_zero_credits(
            told@,
            records@,
            losses_of(records@, contracts@, records@.len()),
            covered,
            rows@,
            received,
            now,
            mode,
        ),
{
    let losses = unpaid_losses(records, contracts);
    let ghost unpaid = losses_of(records@, contracts@, records@.len());
    assert(unpaid.dom() =~= losses@.dom());
    let count: usize = losses.len();
    let ghost keys = in_order(unpaid.dom());
    let mut told: Vec<Told> = Vec::new();
    let mut i: usize = 0;
    while i < count
        invariant
            i <= count,
            keys == in_order(unpaid.dom()),
            losses.keys() == keys,
            count == keys.len(),
            loss_views(losses@) == unpaid,
            told@.len() == settled_at_zero(records@, unpaid, covered, rows@, i as nat).len(),
            forall|j: int|
                0 <= j < told@.len() ==> is_zero_credit(
                    #[trigger] told@[j],
                    settled_at_zero(records@, unpaid, covered, rows@, i as nat)[j],
                    unpaid[settled_at_zero(records@, unpaid, covered, rows@, i as nat)[j]].1,
                    received,
                    now,
                    mode,
                ),
        decreases count - i,
    {
        let (command, loss) = losses.at(i);
        let (contract, expiry) = loss;
        assert(unpaid[keys[i as int]] == (contract@, *expiry));
        if let Some(delay) = settlement_delay(records, command) {
            if settles_at_zero(
                contract.as_str(),
                *expiry,
                delay,
                covered.observed_now,
                covered.from,
                covered.through,
                rows,
            ) {
                told.push(zero_credit(command, *expiry, received, now, mode));
            }
        }
        i = i + 1;
    }
    told
}

} // verus!
