//! Whether entries are enabled: the reasons that veto them.

use crate::live::journal::names_in_order;
use crate::table::{in_order, Table};
use crate::text::views;
use vstd::prelude::*;
use vstd::string::*;

verus! {

pub const WARMUP: &'static str = "causal warmup is incomplete";

pub const BALANCE: &'static str = "broker balance differs from assessed or restored cash";

pub const DEADLINE: &'static str = "lease deadline reached";

pub const SPOOL: &'static str = "journal spool bound reached";

pub const UNRESOLVED_CLAIM: &'static str = "unresolved dispatch claim";

pub const UNRESOLVED_EVIDENCE: &'static str = "account has unresolved financial evidence";

pub const LEASE_LOST: &'static str = "lease lost";

pub const RENEWAL: &'static str = "lease renewal unavailable or lost";

pub const AUTHORIZATION: &'static str = "live authorization is absent";

pub const CONTINUITY: &'static str = "market continuity";

pub const RECOVERY: &'static str = "claim recovery unavailable";

pub const PORTFOLIO: &'static str = "broker portfolio contains an uncorrelated liability";

/// Whether entries are enabled, and why not.
#[derive(Debug)]
pub enum Entries {
    Enabled,
    Disabled(String),
}

/// Texts joined by a separator.
pub open spec fn joined(texts: Seq<Seq<char>>, separator: Seq<char>) -> Seq<char>
    decreases texts.len(),
{
    if texts.len() == 0 {
        Seq::empty()
    } else if texts.len() == 1 {
        texts[0]
    } else {
        joined(texts.drop_last(), separator) + separator + texts.last()
    }
}

/// Joins texts by a separator.
pub fn join_texts(texts: &Vec<String>, separator: &str) -> (text: String)
    ensures
        text@ == joined(views(texts@), separator@),
{
    let mut text = String::new();
    let mut i: usize = 0;
    assert(views(texts@).take(0) =~= Seq::empty());
    assert(text@ =~= Seq::empty());
    while i < texts.len()
        invariant
            i <= texts@.len(),
            text@ == joined(views(texts@).take(i as int), separator@),
        decreases texts@.len() - i,
    {
        let ghost next = views(texts@).take(i + 1);
        assert(next.drop_last() =~= views(texts@).take(i as int));
        assert(next.last() == texts@[i as int]@);
        if i > 0 {
            text.append(separator);
        }
        text.append(texts[i].as_str());
        i = i + 1;
        assert(text@ =~= joined(next, separator@));
    }
    assert(views(texts@).take(i as int) =~= views(texts@));
    text
}

/// The reasons that veto entries.
#[derive(Debug)]
pub struct Vetoes {
    reasons: Table<()>,
}

/// A set of reasons after one was raised or lifted.
pub open spec fn after_veto(reasons: Set<Seq<char>>, reason: Seq<char>, present: bool) -> Set<
    Seq<char>,
> {
    if present {
        reasons.insert(reason)
    } else {
        reasons.remove(reason)
    }
}

impl Vetoes {
    /// The reasons in force.
    pub closed spec fn view(&self) -> Set<Seq<char>> {
        self.reasons@.dom()
    }

    /// No reason at all.
    pub fn none() -> (vetoes: Vetoes)
        ensures
            vetoes@ == Set::<Seq<char>>::empty(),
    {
        let vetoes = Vetoes { reasons: Table::new() };
        assert(vetoes@ =~= Set::<Seq<char>>::empty());
        vetoes
    }

    /// Raises a reason, or lifts it.
    pub fn set(&mut self, reason: &str, present: bool)
        ensures
            final(self)@ == after_veto(old(self)@, reason@, present),
    {
        if present {
            self.reasons.insert(reason.to_owned(), ());
        } else {
            let _ = self.reasons.remove(reason);
        }
        assert(self@ =~= after_veto(old(self)@, reason@, present));
    }

    /// Whether a reason is in force.
    pub fn contains(&self, reason: &str) -> (found: bool)
        ensures
            found == self@.contains(reason@),
    {
        self.reasons.contains(reason)
    }

    /// Whether entries are enabled: exactly when no reason is in force. Otherwise all of them are
    /// given, in order.
    pub fn entries(&self) -> (entries: Entries)
        ensures
            (entries is Enabled) == (self@ == Set::<Seq<char>>::empty()),
            entries matches Entries::Disabled(reason) ==> reason@ == joined(
                in_order(self@),
                "; "@,
            ),
    {
        if self.reasons.is_empty() {
            assert(self@ =~= Set::<Seq<char>>::empty());
            Entries::Enabled
        } else {
            proof {
                if self@ == Set::<Seq<char>>::empty() {
                    assert(self.reasons@ =~= Map::empty());
                }
            }
            let reasons = names_in_order(&self.reasons);
            Entries::Disabled(join_texts(&reasons, "; "))
        }
    }

    /// Whether entries are enabled.
    pub fn enabled(&self) -> (enabled: bool)
        ensures
            enabled == (self@ == Set::<Seq<char>>::empty()),
    {
        if self.reasons.is_empty() {
            assert(self@ =~= Set::<Seq<char>>::empty());
            true
        } else {
            proof {
                if self@ == Set::<Seq<char>>::empty() {
                    assert(self.reasons@ =~= Map::empty());
                }
            }
            false
        }
    }
}

/// What gates entries at every decision.
#[derive(Debug, Clone, Copy)]
pub struct Gates {
    pub warm: bool,
    pub balance_reconciled: bool,
    pub local_now: i64,
    pub deadline: i64,
    pub spool_bytes: u64,
    pub max_spool_bytes: u64,
    pub unresolved_claim: bool,
}

/// A set of reasons after the gates were read.
pub open spec fn after_gates(reasons: Set<Seq<char>>, gates: Gates) -> Set<Seq<char>> {
    let warm = after_veto(reasons, WARMUP@, !gates.warm);
    let paid = after_veto(warm, BALANCE@, !gates.balance_reconciled);
    let timely = after_veto(paid, DEADLINE@, gates.local_now >= gates.deadline);
    let spooled = after_veto(timely, SPOOL@, gates.spool_bytes >= gates.max_spool_bytes);
    after_veto(spooled, UNRESOLVED_CLAIM@, gates.unresolved_claim)
}

/// Reads the gates.
pub fn entry_gates(vetoes: &mut Vetoes, gates: Gates)
    ensures
        final(vetoes)@ == after_gates(old(vetoes)@, gates),
{
    vetoes.set(WARMUP, !gates.warm);
    vetoes.set(BALANCE, !gates.balance_reconciled);
    vetoes.set(DEADLINE, gates.local_now >= gates.deadline);
    vetoes.set(SPOOL, gates.spool_bytes >= gates.max_spool_bytes);
    vetoes.set(UNRESOLVED_CLAIM, gates.unresolved_claim);
}

/// No entry passes the gates while any of them is closed, whatever was vetoed before.
pub proof fn closed_gates_disable_entries(reasons: Set<Seq<char>>, gates: Gates)
    requires
        !gates.warm || !gates.balance_reconciled || gates.local_now >= gates.deadline
            || gates.spool_bytes >= gates.max_spool_bytes || gates.unresolved_claim,
    ensures
        after_gates(reasons, gates) != Set::<Seq<char>>::empty(),
{
    reveal_strlit("causal warmup is incomplete");
    reveal_strlit("broker balance differs from assessed or restored cash");
    reveal_strlit("lease deadline reached");
    reveal_strlit("journal spool bound reached");
    reveal_strlit("unresolved dispatch claim");
    assert(WARMUP@.len() == 27 && BALANCE@.len() == 53 && DEADLINE@.len() == 22);
    assert(SPOOL@.len() == 27 && UNRESOLVED_CLAIM@.len() == 25);
    assert(WARMUP@[0] != SPOOL@[0]);
    let after = after_gates(reasons, gates);
    if !gates.warm {
        assert(after.contains(WARMUP@));
    } else if !gates.balance_reconciled {
        assert(after.contains(BALANCE@));
    } else if gates.local_now >= gates.deadline {
        assert(after.contains(DEADLINE@));
    } else if gates.spool_bytes >= gates.max_spool_bytes {
        assert(after.contains(SPOOL@));
    } else {
        assert(after.contains(UNRESOLVED_CLAIM@));
    }
}

/// A veto that nothing lifts outlives the gates: entries stay disabled.
pub proof fn other_vetoes_survive_the_gates(
    reasons: Set<Seq<char>>,
    gates: Gates,
    reason: Seq<char>,
)
    requires
        reasons.contains(reason),
        reason != WARMUP@ && reason != BALANCE@ && reason != DEADLINE@ && reason != SPOOL@
            && reason != UNRESOLVED_CLAIM@,
    ensures
        after_gates(reasons, gates).contains(reason),
        after_gates(reasons, gates) != Set::<Seq<char>>::empty(),
{
    assert(after_gates(reasons, gates).contains(reason));
}

} // verus!
