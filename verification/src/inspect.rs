//! Inspecting a broker without purchasing: the finite checks of a report, and how many live
//! observations are waited for.

use crate::lineage::json::Json;
use crate::live::finance::Direction;
use crate::market::{clamped, saturating_difference, saturating_sum};
use crate::table::Table;
use crate::text::{join, join4, refusal, text_of};
use vstd::prelude::*;
use vstd::string::*;

verus! {

/// What a check found.
#[derive(Debug)]
pub enum InspectionDetail {
    Unavailable,
    Discovery { instruments: Vec<Json> },
    Contracts { contracts: Vec<Json> },
    History { rows: usize, first: Option<String>, last: Option<String> },
    Live { counts: Table<u64> },
    Cancellation { control: String, counts: Table<u64> },
    Balance { amount: String, currency: String, account_class: String },
    TransactionAcknowledged,
    Proposal {
        direction: Direction,
        ask_price: String,
        payout: String,
        spot: String,
        spot_time: String,
        longcode: String,
    },
    AccountClass { account_class: String },
}

/// One check of a report.
#[derive(Debug)]
pub struct InspectionCheck {
    pub name: String,
    pub instrument: Option<String>,
    pub result: String,
    pub detail: InspectionDetail,
}

/// What an inspection found.
#[derive(Debug)]
pub struct InspectionReport {
    pub broker: String,
    pub kind: String,
    pub endpoint_host: String,
    pub started: String,
    pub checks: Vec<InspectionCheck>,
}

/// Whether a detail is a page of history without rows.
pub open spec fn is_empty_page(detail: InspectionDetail) -> bool {
    detail matches InspectionDetail::History { rows, .. } && rows == 0
}

/// How the outcome of a check reads.
pub open spec fn outcome_text(result: Result<InspectionDetail, String>) -> Seq<char> {
    match result {
        Ok(detail) => if is_empty_page(detail) {
            "observed: empty history page"@
        } else {
            "verified"@
        },
        Err(error) => "unavailable: "@ + error@,
    }
}

/// What the outcome of a check found.
pub open spec fn outcome_detail(result: Result<InspectionDetail, String>) -> InspectionDetail {
    match result {
        Ok(detail) => detail,
        Err(_) => InspectionDetail::Unavailable,
    }
}

impl InspectionReport {
    /// Whether a report is another with one check more.
    pub open spec fn checked(
        self,
        before: InspectionReport,
        name: Seq<char>,
        instrument: Option<Seq<char>>,
        result: Seq<char>,
        detail: InspectionDetail,
    ) -> bool {
        &&& self.broker == before.broker
        &&& self.kind == before.kind
        &&& self.endpoint_host == before.endpoint_host
        &&& self.started == before.started
        &&& self.checks@.len() == before.checks@.len() + 1
        &&& self.checks@.drop_last() == before.checks@
        &&& self.checks@.last().name@ == name
        &&& text_of(self.checks@.last().instrument) == instrument
        &&& self.checks@.last().result@ == result
        &&& self.checks@.last().detail == detail
    }

    /// Adds a check.
    pub fn check(
        &mut self,
        name: &str,
        instrument: Option<String>,
        result: Result<InspectionDetail, String>,
    )
        ensures
            final(self).checked(
                *old(self),
                name@,
                text_of(instrument),
                outcome_text(result),
                outcome_detail(result),
            ),
    {
        let ghost before = *self;
        let (text, detail) = match result {
            Ok(detail) => {
                let empty: bool = match &detail {
                    InspectionDetail::History { rows, .. } => *rows == 0,
                    _ => false,
                };
                (
                    if empty {
                        "observed: empty history page".to_owned()
                    } else {
                        "verified".to_owned()
                    },
                    detail,
                )
            },
            Err(error) => (
                join("unavailable: ", error.as_str()),
                InspectionDetail::Unavailable,
            ),
        };
        self.checks.push(
            InspectionCheck { name: name.to_owned(), instrument, result: text, detail },
        );
        assert(self.checks@.drop_last() =~= before.checks@);
    }
}

/// Inspecting needs the tables that say what to inspect.
pub fn check_tables(has_history: bool, has_inspect: bool) -> (result: Result<(), String>)
    ensures
        refusal(result) == if !has_history {
            Some("inspect: the configuration declares no history table"@)
        } else if !has_inspect {
            Some("inspect: the configuration declares no inspect table"@)
        } else {
            None
        },
{
    if !has_history {
        return Err("inspect: the configuration declares no history table".to_owned());
    }
    if !has_inspect {
        return Err("inspect: the configuration declares no inspect table".to_owned());
    }
    Ok(())
}

/// An instrument's history is inspected by its definition.
pub fn check_declared(declared: bool) -> (result: Result<(), String>)
    ensures
        refusal(result) == if declared {
            None
        } else {
            Some("inspect: instrument is not declared"@)
        },
{
    if declared {
        Ok(())
    } else {
        Err("inspect: instrument is not declared".to_owned())
    }
}

/// An observation that came in live.
#[derive(Debug)]
pub enum LiveEvent {
    Break { reason: String },
    Observation {
        instrument: String,
        receipt_micros: i64,
        /// Why the observation does not continue those before it, if it does not.
        discontinuity: Option<String>,
    },
}

/// Waiting for live observations, counted by instrument.
#[derive(Debug)]
pub struct Collection {
    pub counts: Table<u64>,
    pub deadline: i64,
    pub maximum: Option<u64>,
    pub after: Option<i64>,
}

/// Whether some instrument was observed less often than a limit.
pub open spec fn some_below(counts: Map<Seq<char>, u64>, limit: u64) -> bool {
    exists|name: Seq<char>| counts.dom().contains(name) && #[trigger] counts[name] < limit
}

/// Whether some instrument was observed less often than a limit.
pub fn any_below(counts: &Table<u64>, limit: u64) -> (below: bool)
    ensures
        below == some_below(counts@, limit),
{
    let length: usize = counts.len();
    let mut i: usize = 0;
    while i < length
        invariant
            i <= length,
            length == counts.keys().len(),
            forall|j: int| 0 <= j < i ==> counts@[#[trigger] counts.keys()[j]] >= limit,
            forall|j: int|
                0 <= j < length ==> counts@.dom().contains(#[trigger] counts.keys()[j]),
            counts.keys().to_set() == counts@.dom(),
        decreases length - i,
    {
        let (name, count) = counts.at(i);
        if *count < limit {
            assert(counts@[counts.keys()[i as int]] < limit);
            return true;
        }
        i = i + 1;
    }
    assert forall|name: Seq<char>| counts@.dom().contains(name) implies #[trigger] counts@[name]
        >= limit by {
        assert(counts.keys().to_set().contains(name));
        let j = choose|j: int| 0 <= j < counts.keys().len() && counts.keys()[j] == name;
        assert(counts@[counts.keys()[j]] >= limit);
    }
    false
}

/// Nothing counted for any of some instruments.
pub open spec fn zeros(instruments: Seq<String>) -> Map<Seq<char>, u64>
    decreases instruments.len(),
{
    if instruments.len() == 0 {
        Map::empty()
    } else {
        zeros(instruments.drop_last()).insert(instruments.last()@, 0)
    }
}

impl Collection {
    /// Whether more observations are wanted, whatever the time.
    pub open spec fn wants(&self) -> bool {
        &&& self.counts@.dom() != Set::<Seq<char>>::empty()
        &&& match self.maximum {
            Some(limit) => some_below(self.counts@, limit),
            None => true,
        }
    }

    /// Waits from now on, for a while or until every instrument was observed often enough.
    pub fn new(
        instruments: &Vec<String>,
        now: i64,
        duration: i64,
        maximum: Option<u64>,
        after: Option<i64>,
    ) -> (collection: Self)
        ensures
            collection.counts@ == zeros(instruments@),
            collection.deadline == clamped(now + duration),
            collection.maximum == maximum,
            collection.after == after,
    {
        let mut counts: Table<u64> = Table::new();
        let mut i: usize = 0;
        assert(instruments@.take(0) =~= Seq::empty());
        while i < instruments.len()
            invariant
                i <= instruments@.len(),
                counts@ == zeros(instruments@.take(i as int)),
            decreases instruments@.len() - i,
        {
            assert(instruments@.take(i + 1).drop_last() =~= instruments@.take(i as int));
            counts.insert(instruments[i].clone(), 0);
            i = i + 1;
        }
        assert(instruments@.take(i as int) =~= instruments@);
        Collection { counts, deadline: saturating_sum(now, duration), maximum, after }
    }

    /// How long to wait for the next observation, or nothing where the wait is over.
    pub fn remaining(&self, now: i64) -> (wait: Option<i64>)
        ensures
            wait == if self.wants() && clamped(self.deadline - now) > 0 {
                Some(clamped(self.deadline - now) as i64)
            } else {
                None
            },
    {
        let wanted: bool = !self.counts.is_empty() && match self.maximum {
            Some(limit) => any_below(&self.counts, limit),
            None => true,
        };
        if !wanted {
            return None;
        }
        let left: i64 = saturating_difference(self.deadline, now);
        if left <= 0 {
            None
        } else {
            Some(left)
        }
    }

    /// Whether an observation is counted.
    pub open spec fn counts_at(&self, receipt_micros: i64) -> bool {
        match self.after {
            Some(after) => receipt_micros >= after,
            None => true,
        }
    }

    /// Takes an observation: a break of continuity ends the wait, one of another instrument is
    /// an error, and any other is counted, unless it came too early.
    pub fn take(&mut self, event: &LiveEvent) -> (result: Result<(), String>)
        requires
            forall|name: Seq<char>| old(self).counts@.dom().contains(name) ==> #[trigger] old(
                self,
            ).counts@[name] < u64::MAX,
        ensures
            final(self).deadline == old(self).deadline,
            final(self).maximum == old(self).maximum,
            final(self).after == old(self).after,
            match *event {
                LiveEvent::Break { reason } => {
                    &&& refusal(result) == Some("continuity break: "@ + reason@)
                    &&& final(self).counts@ == old(self).counts@
                },
                LiveEvent::Observation { instrument, receipt_micros, discontinuity } => {
                    if discontinuity is Some {
                        &&& refusal(result) == Some(discontinuity->0@)
                        &&& final(self).counts@ == old(self).counts@
                    } else if !old(self).counts_at(receipt_micros) {
                        &&& result is Ok
                        &&& final(self).counts@ == old(self).counts@
                    } else if !old(self).counts@.dom().contains(instrument@) {
                        &&& refusal(result) == Some("inspect: unexpected live instrument"@)
                        &&& final(self).counts@ == old(self).counts@
                    } else {
                        &&& result is Ok
                        &&& final(self).counts@ == old(self).counts@.insert(
                            instrument@,
                            (old(self).counts@[instrument@] + 1) as u64,
                        )
                    }
                },
            },
    {
        match event {
            LiveEvent::Break { reason } => Err(join("continuity break: ", reason.as_str())),
            LiveEvent::Observation { instrument, receipt_micros, discontinuity } => {
                if let Some(reason) = discontinuity {
                    return Err(reason.clone());
                }
                let counted: bool = match self.after {
                    Some(after) => *receipt_micros >= after,
                    None => true,
                };
                if !counted {
                    return Ok(());
                }
                let count: u64 = match self.counts.get(instrument.as_str()) {
                    Some(count) => *count,
                    None => {
                        return Err("inspect: unexpected live instrument".to_owned());
                    },
                };
                self.counts.insert(instrument.clone(), count + 1);
                Ok(())
            },
        }
    }
}

/// Whether live observations fell short: an instrument could not be subscribed, or one was not
/// observed often enough.
pub open spec fn falls_short(
    counts: Map<Seq<char>, u64>,
    instruments: nat,
    target: u64,
) -> bool {
    counts.dom().len() != instruments || some_below(counts, target)
}

/// Adds the check of live observations; `instruments` is how many were to be observed, `target`
/// how often each.
pub fn check_live(
    report: &mut InspectionReport,
    live: Result<Table<u64>, String>,
    instruments: usize,
    target: u64,
)
    ensures
        match live {
            Ok(counts) => final(report).checked(
                *old(report),
                "live"@,
                None,
                if falls_short(counts@, instruments as nat, target) {
                    "observed: live deadline reached before row target"@
                } else {
                    "verified"@
                },
                InspectionDetail::Live { counts },
            ),
            Err(error) => final(report).checked(
                *old(report),
                "live"@,
                None,
                "unavailable: "@ + error@,
                InspectionDetail::Unavailable,
            ),
        },
{
    let ghost before = *report;
    match live {
        Err(error) => {
            report.check("live", None, Err(error));
        },
        Ok(counts) => {
            let short: bool = counts.len() != instruments || any_below(&counts, target);
            let result = if short {
                "observed: live deadline reached before row target".to_owned()
            } else {
                "verified".to_owned()
            };
            report.checks.push(
                InspectionCheck {
                    name: "live".to_owned(),
                    instrument: None,
                    result,
                    detail: InspectionDetail::Live { counts },
                },
            );
            assert(report.checks@.drop_last() =~= before.checks@);
        },
    }
}

/// How a broker answered a cancellation.
#[derive(Debug, Clone, Copy, PartialEq, Eq, Structural)]
pub enum Cancellation {
    Acknowledged,
    SentWithoutAcknowledgement,
}

/// How an answer to a cancellation reads.
pub open spec fn control_of(control: Cancellation) -> Seq<char> {
    match control {
        Cancellation::Acknowledged => "acknowledged"@,
        Cancellation::SentWithoutAcknowledgement => "sent_without_acknowledgement"@,
    }
}

/// How an answer to a cancellation reads.
pub fn control_text(control: Cancellation) -> (text: &'static str)
    ensures
        text@ == control_of(control),
{
    match control {
        Cancellation::Acknowledged => "acknowledged",
        Cancellation::SentWithoutAcknowledgement => "sent_without_acknowledgement",
    }
}

/// A count by symbol, nothing where there is none.
pub open spec fn count_at(counts: Map<Seq<char>, u64>, symbol: Seq<char>) -> u64 {
    if counts.dom().contains(symbol) {
        counts[symbol]
    } else {
        0
    }
}

fn count_of(counts: &Table<u64>, symbol: &str) -> (count: u64)
    ensures
        count == count_at(counts@, symbol@),
{
    match counts.get(symbol) {
        Some(count) => *count,
        None => 0,
    }
}

/// Counts in which what every subscribed instrument received since stands in for what was
/// observed of it.
pub open spec fn received(
    counts: Map<Seq<char>, u64>,
    subscribed: Seq<(String, String)>,
    before: Map<Seq<char>, u64>,
    now: Map<Seq<char>, u64>,
) -> Map<Seq<char>, u64>
    decreases subscribed.len(),
{
    if subscribed.len() == 0 {
        counts
    } else {
        let (instrument, symbol) = subscribed.last();
        received(counts, subscribed.drop_last(), before, now).insert(
            instrument@,
            (count_at(now, symbol@) - count_at(before, symbol@)) as u64,
        )
    }
}

/// Puts what every subscribed instrument received since a cancellation in place of what was
/// observed of it; `subscribed` are the instruments with their symbols.
pub fn received_since(
    counts: &mut Table<u64>,
    subscribed: &Vec<(String, String)>,
    before: &Table<u64>,
    now: &Table<u64>,
)
    requires
        forall|symbol: Seq<char>| #[trigger]
            count_at(before@, symbol) <= count_at(now@, symbol),
    ensures
        final(counts)@ == received(old(counts)@, subscribed@, before@, now@),
{
    let ghost start = counts@;
    let mut i: usize = 0;
    assert(subscribed@.take(0) =~= Seq::empty());
    while i < subscribed.len()
        invariant
            i <= subscribed@.len(),
            forall|symbol: Seq<char>| #[trigger]
                count_at(before@, symbol) <= count_at(now@, symbol),
            counts@ == received(start, subscribed@.take(i as int), before@, now@),
        decreases subscribed@.len() - i,
    {
        assert(subscribed@.take(i + 1).drop_last() =~= subscribed@.take(i as int));
        let symbol = subscribed[i].1.as_str();
        let earlier: u64 = count_of(before, symbol);
        let later: u64 = count_of(now, symbol);
        counts.insert(subscribed[i].0.clone(), later - earlier);
        i = i + 1;
    }
    assert(subscribed@.take(i as int) =~= subscribed@);
}

/// Adds the check of a cancellation that was sent: how the broker answered, and what still came.
pub fn check_cancellation(
    report: &mut InspectionReport,
    instrument: &str,
    control: Cancellation,
    counts: Result<Table<u64>, String>,
)
    ensures
        match counts {
            Ok(counts) => {
                &&& final(report).checks@.last().detail matches InspectionDetail::Cancellation {
                    control: text,
                    counts: now,
                }
                &&& text@ == control_of(control)
                &&& now == counts
                &&& final(report).checked(
                    *old(report),
                    "cancellation"@,
                    Some(instrument@),
                    "observed: "@ + control_of(control),
                    final(report).checks@.last().detail,
                )
            },
            Err(error) => final(report).checked(
                *old(report),
                "cancellation"@,
                Some(instrument@),
                "unavailable: "@ + error@,
                InspectionDetail::Unavailable,
            ),
        },
{
    let ghost before = *report;
    match counts {
        Err(error) => {
            report.check("cancellation", Some(instrument.to_owned()), Err(error));
        },
        Ok(counts) => {
            let text = control_text(control);
            report.checks.push(
                InspectionCheck {
                    name: "cancellation".to_owned(),
                    instrument: Some(instrument.to_owned()),
                    result: join("observed: ", text),
                    detail: InspectionDetail::Cancellation { control: text.to_owned(), counts },
                },
            );
            assert(report.checks@.drop_last() =~= before.checks@);
        },
    }
}

/// What the subscription to transactions answered.
#[derive(Debug, Clone, Copy, PartialEq, Eq, Structural)]
pub enum AccountAnswer {
    Acknowledged,
    Other,
    Nothing,
}

/// The subscription to transactions must be acknowledged before anything else comes.
pub fn acknowledgement(answer: Result<AccountAnswer, String>) -> (result: Result<
    InspectionDetail,
    String,
>)
    ensures
        match answer {
            Ok(AccountAnswer::Acknowledged) => result == Ok::<InspectionDetail, String>(
                InspectionDetail::TransactionAcknowledged,
            ),
            Ok(_) => refusal(result) == Some(
                "deriv transaction: subscription acknowledgement missing"@,
            ),
            Err(error) => refusal(result) == Some(error@),
        },
{
    match answer {
        Ok(AccountAnswer::Acknowledged) => Ok(InspectionDetail::TransactionAcknowledged),
        Ok(_) => Err("deriv transaction: subscription acknowledgement missing".to_owned()),
        Err(error) => Err(error),
    }
}

/// What the inspection of an account does next.
#[derive(Debug, Clone, Copy, PartialEq, Eq, Structural)]
pub enum AccountStep {
    Subscribe,
    Propose,
    Stop,
}

/// Adds the check of an account's balance: only an account that answers is looked at further.
pub fn check_balance(report: &mut InspectionReport, balance: Result<InspectionDetail, String>) -> (step:
    AccountStep)
    ensures
        final(report).checked(
            *old(report),
            "authentication"@,
            None,
            outcome_text(balance),
            outcome_detail(balance),
        ),
        step == if balance is Ok {
            AccountStep::Subscribe
        } else {
            AccountStep::Stop
        },
{
    let ready: bool = balance.is_ok();
    report.check("authentication", None, balance);
    if ready {
        AccountStep::Subscribe
    } else {
        AccountStep::Stop
    }
}

/// Adds the check of an account's transactions: proposals are asked for only where they came and
/// the configuration describes one.
pub fn check_transactions(
    report: &mut InspectionReport,
    answer: Result<InspectionDetail, String>,
    proposes: bool,
) -> (step: AccountStep)
    ensures
        final(report).checked(
            *old(report),
            "transactions"@,
            None,
            outcome_text(answer),
            outcome_detail(answer),
        ),
        step == if answer is Ok && proposes {
            AccountStep::Propose
        } else {
            AccountStep::Stop
        },
{
    let ready: bool = answer.is_ok();
    report.check("transactions", None, answer);
    if ready && proposes {
        AccountStep::Propose
    } else {
        AccountStep::Stop
    }
}

/// The proposals that are asked for: both directions of every instrument, in order.
pub open spec fn proposals_of(instruments: nat) -> Seq<(usize, Direction)>
    decreases instruments,
{
    if instruments == 0 {
        Seq::empty()
    } else {
        proposals_of((instruments - 1) as nat).push(
            ((instruments - 1) as usize, Direction::Buy),
        ).push(((instruments - 1) as usize, Direction::Sell))
    }
}

/// The proposals that are asked for.
pub fn proposals(instruments: usize) -> (list: Vec<(usize, Direction)>)
    ensures
        list@ == proposals_of(instruments as nat),
{
    let mut list: Vec<(usize, Direction)> = Vec::new();
    let mut i: usize = 0;
    while i < instruments
        invariant
            i <= instruments,
            list@ == proposals_of(i as nat),
        decreases instruments - i,
    {
        list.push((i, Direction::Buy));
        list.push((i, Direction::Sell));
        i = i + 1;
    }
    list
}

/// The binding under which an inspection asks for a proposal; `direction` as it is printed.
pub fn proposal_binding(instrument: &str, direction: &str) -> (binding: String)
    ensures
        binding@ == "inspection:"@ + instrument@ + ":"@ + direction@,
{
    join4("inspection:", instrument, ":", direction)
}

/// Where a report is kept beside the objects.
pub fn report_path(report: &InspectionReport) -> (path: String)
    ensures
        path@ == "inspections/"@ + report.started@ + "-"@ + report.broker@ + ".json"@,
{
    let mut path = join4("inspections/", report.started.as_str(), "-", report.broker.as_str());
    path.append(".json");
    path
}

/// The line that a check prints.
pub open spec fn check_text(broker: Seq<char>, check: InspectionCheck) -> Seq<char> {
    "inspect "@ + broker + " "@ + check.name@ + " "@ + (match check.instrument {
        Some(instrument) => instrument@,
        None => "all"@,
    }) + " "@ + check.result@
}

/// The line that a check prints.
pub fn check_line(broker: &str, check: &InspectionCheck) -> (line: String)
    ensures
        line@ == check_text(broker@, *check),
{
    let mut line = join4("inspect ", broker, " ", check.name.as_str());
    line.append(" ");
    match &check.instrument {
        Some(instrument) => {
            line.append(instrument.as_str());
        },
        None => {
            line.append("all");
        },
    }
    line.append(" ");
    line.append(check.result.as_str());
    line
}

/// The closing line: where the report was published.
pub fn closing_line(uri: &str) -> (line: String)
    ensures
        line@ == "inspection "@ + uri@,
{
    join("inspection ", uri)
}

/// A check is verified exactly where it found something that is not a page of history without
/// rows; a check that failed found nothing, and says why it failed.
pub proof fn a_check_is_verified_by_what_it_found(result: Result<InspectionDetail, String>)
    ensures
        outcome_text(result) == "verified"@ ==> result is Ok,
        (result matches Ok(InspectionDetail::History { rows, .. }) ==> (rows == 0
            <==> outcome_text(result) == "observed: empty history page"@) && (rows > 0
            <==> outcome_text(result) == "verified"@)),
        (result matches Ok(detail) ==> outcome_detail(result) == detail && (!(detail is History)
            ==> outcome_text(result) == "verified"@)),
        (result matches Err(error) ==> outcome_detail(result) is Unavailable && outcome_text(result)
            == "unavailable: "@ + error@),
{
    reveal_strlit("verified");
    reveal_strlit("observed: empty history page");
    reveal_strlit("unavailable: ");
    assert("verified"@.len() != "observed: empty history page"@.len());
    if let Err(error) = result {
        assert(("unavailable: "@ + error@)[0] == 'u');
    }
}

/// Every instrument that is waited for is counted from nothing, and no other.
pub proof fn every_instrument_is_counted_from_nothing(instruments: Seq<String>, name: Seq<char>)
    ensures
        zeros(instruments).dom().contains(name) <==> exists|i: int|
            0 <= i < instruments.len() && (#[trigger] instruments[i])@ == name,
        zeros(instruments).dom().contains(name) ==> zeros(instruments)[name] == 0,
    decreases instruments.len(),
{
    if instruments.len() > 0 {
        let fewer = instruments.drop_last();
        every_instrument_is_counted_from_nothing(fewer, name);
        if zeros(instruments).dom().contains(name) {
            if instruments.last()@ == name {
                assert(instruments[instruments.len() - 1]@ == name);
            } else {
                let i = choose|i: int| 0 <= i < fewer.len() && (#[trigger] fewer[i])@ == name;
                assert(instruments[i] == fewer[i]);
            }
        }
        if exists|i: int| 0 <= i < instruments.len() && (#[trigger] instruments[i])@ == name {
            let i = choose|i: int|
                0 <= i < instruments.len() && (#[trigger] instruments[i])@ == name;
            if i < fewer.len() {
                assert(fewer[i] == instruments[i]);
            }
        }
    }
}

/// More is waited for exactly where something is, and there is no limit or an instrument below it;
/// live observations fall short exactly where an instrument is missing or one was observed less
/// often than it had to be.
pub proof fn waiting_ends_with_the_last_instrument(
    collection: Collection,
    name: Seq<char>,
    instruments: nat,
    target: u64,
)
    requires
        collection.counts@.dom().contains(name),
    ensures
        collection.maximum is None ==> collection.wants(),
        (collection.maximum matches Some(limit) ==> (collection.counts@[name] < limit
            ==> collection.wants()) && (!collection.wants() ==> collection.counts@[name]
            >= limit)),
        !falls_short(collection.counts@, instruments, target) ==> collection.counts@[name]
            >= target && collection.counts@.dom().len() == instruments,
        collection.counts@[name] < target ==> falls_short(collection.counts@, instruments, target),
        collection.counts@.dom().len() != instruments ==> falls_short(
            collection.counts@,
            instruments,
            target,
        ),
{
    assert(collection.counts@.dom() != Set::<Seq<char>>::empty());
    if collection.counts@[name] < target {
        assert(some_below(collection.counts@, target));
    }
}

/// Where every instrument was observed often enough, and all of them are counted, nothing falls
/// short and nothing more is waited for.
pub proof fn enough_is_enough(collection: Collection, limit: u64, instruments: nat)
    requires
        collection.counts@.dom().len() == instruments,
        forall|name: Seq<char>| #[trigger]
            collection.counts@.dom().contains(name) ==> collection.counts@[name] >= limit,
    ensures
        !falls_short(collection.counts@, instruments, limit),
        collection.maximum == Some(limit) ==> !collection.wants(),
{
    if some_below(collection.counts@, limit) {
        let name = choose|name: Seq<char>|
            collection.counts@.dom().contains(name) && #[trigger] collection.counts@[name] < limit;
        assert(collection.counts@.dom().contains(name));
    }
}

/// An observation counts exactly where it did not come before the time from which they do.
pub proof fn early_observations_do_not_count(collection: Collection, receipt_micros: i64)
    ensures
        collection.after is None ==> collection.counts_at(receipt_micros),
        (collection.after matches Some(after) ==> (collection.counts_at(receipt_micros)
            <==> receipt_micros >= after)),
{
}

/// What a subscribed instrument received since is the difference of its symbol's counts; what was
/// observed of an instrument that is not subscribed stays.
pub proof fn only_what_came_since_is_counted(
    counts: Map<Seq<char>, u64>,
    subscribed: Seq<(String, String)>,
    before: Map<Seq<char>, u64>,
    now: Map<Seq<char>, u64>,
    at: int,
    other: Seq<char>,
)
    requires
        forall|symbol: Seq<char>| #[trigger] count_at(before, symbol) <= count_at(now, symbol),
        0 <= at < subscribed.len(),
        forall|j: int| at < j < subscribed.len() ==> (#[trigger] subscribed[j]).0@
            != subscribed[at].0@,
        forall|j: int| 0 <= j < subscribed.len() ==> (#[trigger] subscribed[j]).0@ != other,
    ensures
        received(counts, subscribed, before, now).dom().contains(subscribed[at].0@),
        received(counts, subscribed, before, now)[subscribed[at].0@] + count_at(
            before,
            subscribed[at].1@,
        ) == count_at(now, subscribed[at].1@),
        received(counts, subscribed, before, now).dom().contains(other) <==> counts.dom().contains(
            other,
        ),
        received(counts, subscribed, before, now)[other] == counts[other],
    decreases subscribed.len(),
{
    let fewer = subscribed.drop_last();
    assert(subscribed.last() == subscribed[subscribed.len() - 1]);
    others_stay(counts, fewer, before, now, other);
    if at < fewer.len() {
        assert forall|j: int| at < j < fewer.len() implies (#[trigger] fewer[j]).0@
            != fewer[at].0@ by {
            assert(fewer[j] == subscribed[j]);
        }
        assert forall|j: int| 0 <= j < fewer.len() implies (#[trigger] fewer[j]).0@ != other by {
            assert(fewer[j] == subscribed[j]);
        }
        only_what_came_since_is_counted(counts, fewer, before, now, at, other);
    } else {
        assert(count_at(before, subscribed[at].1@) <= count_at(now, subscribed[at].1@));
    }
}

proof fn others_stay(
    counts: Map<Seq<char>, u64>,
    subscribed: Seq<(String, String)>,
    before: Map<Seq<char>, u64>,
    now: Map<Seq<char>, u64>,
    other: Seq<char>,
)
    ensures
        (forall|j: int| 0 <= j < subscribed.len() ==> (#[trigger] subscribed[j]).0@ != other)
            ==> received(counts, subscribed, before, now)[other] == counts[other] && (received(
            counts,
            subscribed,
            before,
            now,
        ).dom().contains(other) <==> counts.dom().contains(other)),
    decreases subscribed.len(),
{
    if subscribed.len() > 0 {
        let fewer = subscribed.drop_last();
        others_stay(counts, fewer, before, now, other);
        if forall|j: int| 0 <= j < subscribed.len() ==> (#[trigger] subscribed[j]).0@ != other {
            assert forall|j: int| 0 <= j < fewer.len() implies (#[trigger] fewer[j]).0@ != other by {
                assert(fewer[j] == subscribed[j]);
            }
            assert(subscribed.last() == subscribed[subscribed.len() - 1]);
        }
    }
}

/// Both directions of every instrument are asked for, the bought one first, and nothing else.
pub proof fn both_directions_are_asked_for(instruments: nat)
    ensures
        proposals_of(instruments).len() == 2 * instruments,
        instruments <= usize::MAX ==> forall|i: int|
            0 <= i < instruments ==> #[trigger] proposals_of(instruments)[2 * i] == (
                i as usize,
                Direction::Buy,
            ),
        instruments <= usize::MAX ==> forall|i: int|
            0 <= i < instruments ==> #[trigger] proposals_of(instruments)[2 * i + 1] == (
                i as usize,
                Direction::Sell,
            ),
    decreases instruments,
{
    if instruments > 0 {
        both_directions_are_asked_for((instruments - 1) as nat);
    }
}

} // verus!
