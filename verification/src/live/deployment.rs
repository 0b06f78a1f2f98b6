//! The deployment that a live run executes: its immutable manifest, the checks that bind it to
//! frozen research, and what is reported of it.

use crate::digest::{digest, hex, sha256};
use crate::live::receipt::Segment;
use crate::table::Table;
use crate::text::{finishes_with, join, join3, join4, refusal, same_text, strip_suffix, views};
use vstd::prelude::*;
use vstd::string::*;

verus! {

pub const DEPLOYMENT_KIND: &'static str = "live_deployment";

pub const DEPLOYMENT_SCHEMA_VERSION: u32 = 1;

/// Everything that a live deployment is bound to.
#[derive(Debug)]
pub struct DeploymentManifest {
    pub kind: String,
    pub schema_version: u32,
    pub execution_contract: String,
    pub research: String,
    pub bundle_sha256: String,
    pub frozen: String,
    pub selection: String,
    pub policy: String,
    pub certification: String,
    pub definition: String,
    pub config_hash: String,
    pub code_revision: String,
    pub broker: String,
    pub account: String,
    pub hash: String,
}

/// The key under which a deployment is published.
pub open spec fn deployment_key(hash: Seq<char>) -> Seq<char> {
    "live/deployments/"@ + hash + ".json"@
}

impl DeploymentManifest {
    /// The key under which the deployment is published.
    pub fn key(&self) -> (key: String)
        ensures
            key@ == deployment_key(self.hash@),
    {
        join3("live/deployments/", self.hash.as_str(), ".json")
    }

    /// Whether a manifest that was read, whose contents hash to `content_hash`, is a deployment
    /// under an execution contract.
    pub open spec fn describes(
        &self,
        execution_contract: Seq<char>,
        content_hash: Seq<char>,
    ) -> bool {
        &&& self.kind@ == DEPLOYMENT_KIND@
        &&& self.schema_version == DEPLOYMENT_SCHEMA_VERSION
        &&& self.execution_contract@ == execution_contract
        &&& self.hash@ == content_hash
    }

    /// Checks a manifest that was read.
    pub fn check(&self, execution_contract: &str, content_hash: &str) -> (checked: Result<
        (),
        String,
    >)
        ensures
            refusal(checked) == (if self.describes(execution_contract@, content_hash@) {
                None
            } else {
                Some("live deployment: kind, schema, execution contract, or hash mismatch"@)
            }),
    {
        if !same_text(self.kind.as_str(), DEPLOYMENT_KIND) || self.schema_version
            != DEPLOYMENT_SCHEMA_VERSION || !same_text(
            self.execution_contract.as_str(),
            execution_contract,
        ) || !same_text(self.hash.as_str(), content_hash) {
            return Err(
                "live deployment: kind, schema, execution contract, or hash mismatch".to_owned(),
            );
        }
        Ok(())
    }

    /// The root of the store that holds the manifest.
    pub fn store_root(&self, uri: &str) -> (root: Result<String, String>)
        ensures
            refusal(root) == (if finishes_with(uri@, deployment_key(self.hash@)) {
                None
            } else {
                Some("live authorization: deployment manifest key mismatch"@)
            }),
            root matches Ok(root) ==> root@ == without_slashes(
                uri@.subrange(0, uri@.len() - deployment_key(self.hash@).len()),
            ),
    {
        let key = self.key();
        match strip_suffix(uri, key.as_str()) {
            Some(root) => Ok(trim_slashes(root)),
            None => Err("live authorization: deployment manifest key mismatch".to_owned()),
        }
    }

    /// Checks that an operator names the bundle, broker and account of the deployment.
    pub fn check_authorization(
        &self,
        bundle_sha256: &str,
        generation: &str,
        broker: &str,
        account: &str,
    ) -> (checked: Result<(), String>)
        ensures
            refusal(checked) == (if bundle_sha256@ == self.bundle_sha256@ && generation@
                == self.research@ && broker@ == self.broker@ && account@ == self.account@ {
                None
            } else {
                Some("live authorization: deployment, bundle, broker, or account mismatch"@)
            }),
    {
        if !same_text(bundle_sha256, self.bundle_sha256.as_str()) || !same_text(
            generation,
            self.research.as_str(),
        ) || !same_text(broker, self.broker.as_str()) || !same_text(
            account,
            self.account.as_str(),
        ) {
            return Err(
                "live authorization: deployment, bundle, broker, or account mismatch".to_owned(),
            );
        }
        Ok(())
    }
}

/// A text without the slashes at its end.
pub open spec fn without_slashes(text: Seq<char>) -> Seq<char>
    decreases text.len(),
{
    if finishes_with(text, "/"@) && "/"@.len() > 0 {
        without_slashes(text.subrange(0, text.len() - "/"@.len()))
    } else {
        text
    }
}

/// Takes the slashes at the end off a text.
pub fn trim_slashes(text: &str) -> (trimmed: String)
    ensures
        trimmed@ == without_slashes(text@),
{
    proof {
        reveal_strlit("/");
    }
    let mut rest = text.to_owned();
    loop
        invariant
            without_slashes(rest@) == without_slashes(text@),
            "/"@.len() > 0,
        ensures
            rest@ == without_slashes(text@),
        decreases rest@.len(),
    {
        let shorter = match strip_suffix(rest.as_str(), "/") {
            Some(shorter) => shorter.to_owned(),
            None => {
                break;
            },
        };
        rest = shorter;
    }
    rest
}

/// Why refits and warm-ups do not fit the frozen instruments.
pub open spec fn refit_refusal(
    instruments: Seq<String>,
    refits: Seq<String>,
    warmups: nat,
) -> Option<Seq<char>> {
    if refits.len() != instruments.len() || warmups != instruments.len() {
        Some("live: exactly one refit and warmup per frozen instrument is required"@)
    } else if views(refits) != views(instruments) {
        Some("live: refit instrument order mismatch"@)
    } else {
        None
    }
}

/// Checks that there is one refit and one warm-up per frozen instrument, in order.
pub fn check_refits(instruments: &Vec<String>, refits: &Vec<String>, warmups: usize) -> (checked:
    Result<(), String>)
    ensures
        refusal(checked) == refit_refusal(instruments@, refits@, warmups as nat),
{
    if refits.len() != instruments.len() || warmups != instruments.len() {
        return Err(
            "live: exactly one refit and warmup per frozen instrument is required".to_owned(),
        );
    }
    let mut i: usize = 0;
    while i < instruments.len()
        invariant
            i <= instruments@.len(),
            refits@.len() == instruments@.len(),
            warmups == instruments@.len(),
            forall|j: int|
                0 <= j < i ==> views(refits@)[j] == #[trigger] views(instruments@)[j],
        decreases instruments@.len() - i,
    {
        if !same_text(refits[i].as_str(), instruments[i].as_str()) {
            assert(views(refits@)[i as int] != views(instruments@)[i as int]);
            return Err("live: refit instrument order mismatch".to_owned());
        }
        i = i + 1;
    }
    assert(views(refits@) =~= views(instruments@));
    Ok(())
}

/// What a configured instrument declares, its definition in canonical text.
#[derive(Debug)]
pub struct Declared {
    pub price_scale: u8,
    pub quote_currency: String,
    pub definition: String,
}

/// Checks a frozen instrument against its refit and the configured instrument of that name.
pub fn check_bound(
    plan_identity: &str,
    refit_plan_identity: &str,
    declared: Option<&Declared>,
    price_scale: u8,
    account_currency: &str,
    definition: &str,
) -> (checked: Result<(), String>)
    ensures
        refusal(checked) == (if plan_identity@ != refit_plan_identity@ {
            Some("live: refit plan identity mismatch"@)
        } else {
            match declared {
                None => Some("live: frozen instrument is not configured"@),
                Some(declared) => if declared.price_scale != price_scale
                    || declared.quote_currency@ != account_currency@ || declared.definition@
                    != definition@ {
                    Some(
                        "live: configured instrument currency, scale, or feature definition differs from the frozen refit"@,
                    )
                } else {
                    None
                },
            }
        }),
{
    if !same_text(plan_identity, refit_plan_identity) {
        return Err("live: refit plan identity mismatch".to_owned());
    }
    match declared {
        None => Err("live: frozen instrument is not configured".to_owned()),
        Some(declared) => if declared.price_scale != price_scale || !same_text(
            declared.quote_currency.as_str(),
            account_currency,
        ) || !same_text(declared.definition.as_str(), definition) {
            Err(
                "live: configured instrument currency, scale, or feature definition differs from the frozen refit".to_owned(),
            )
        } else {
            Ok(())
        },
    }
}

/// The digests of encoded envelopes.
pub open spec fn digests(envelopes: Seq<Vec<u8>>) -> Seq<Seq<char>> {
    envelopes.map_values(|envelope: Vec<u8>| hex(sha256(envelope@)))
}

/// The scenarios that a deployment's receipt is held to: those of the frozen descriptor, then
/// the envelopes of the selected bindings and of every alternative, by their digests.
pub fn scenarios(descriptor: Vec<String>, envelopes: &Vec<Vec<u8>>) -> (scenarios: Vec<String>)
    ensures
        views(scenarios@) == views(descriptor@) + digests(envelopes@),
{
    let ghost start = views(descriptor@);
    let mut scenarios = descriptor;
    let mut i: usize = 0;
    assert(views(scenarios@) =~= start + digests(envelopes@.take(0)));
    while i < envelopes.len()
        invariant
            i <= envelopes@.len(),
            views(scenarios@) == start + digests(envelopes@.take(i as int)),
        decreases envelopes@.len() - i,
    {
        let ghost before = views(scenarios@);
        scenarios.push(digest(envelopes[i].as_slice()));
        i = i + 1;
        assert(views(scenarios@) =~= before.push(hex(sha256(envelopes@[i - 1]@))));
        assert(digests(envelopes@.take(i as int)) =~= digests(envelopes@.take(i - 1)).push(
            hex(sha256(envelopes@[i - 1]@)),
        ));
        assert(views(scenarios@) =~= start + digests(envelopes@.take(i as int)));
    }
    assert(envelopes@.take(i as int) =~= envelopes@);
    scenarios
}

/// How a live run is driven.
#[derive(Debug, Clone, Copy, PartialEq, Eq, Structural)]
pub enum Mode {
    Replay,
    Paper,
    Live,
}

impl Mode {
    /// The mode's name.
    pub open spec fn name(self) -> Seq<char> {
        match self {
            Mode::Replay => "replay"@,
            Mode::Paper => "paper"@,
            Mode::Live => "live"@,
        }
    }

    /// The mode's name.
    pub fn text(self) -> (text: &'static str)
        ensures
            text@ == self.name(),
    {
        match self {
            Mode::Replay => "replay",
            Mode::Paper => "paper",
            Mode::Live => "live",
        }
    }
}

/// The configured run mode.
#[derive(Debug, Clone, Copy, PartialEq, Eq, Structural)]
pub enum RunMode {
    Research,
    Replay,
    Paper,
    Live,
}

/// The mode of a recorded run.
pub fn replay_mode(run_mode: RunMode) -> (mode: Result<Mode, String>)
    ensures
        refusal(mode) == (if run_mode is Research || run_mode is Replay {
            None
        } else {
            Some("live replay: run_mode must be research or replay"@)
        }),
        mode matches Ok(mode) ==> mode == Mode::Replay,
{
    match run_mode {
        RunMode::Research | RunMode::Replay => Ok(Mode::Replay),
        _ => Err("live replay: run_mode must be research or replay".to_owned()),
    }
}

/// The mode of a run against a broker.
pub fn live_mode(run_mode: RunMode) -> (mode: Result<Mode, String>)
    ensures
        refusal(mode) == (if run_mode is Paper || run_mode is Live {
            None
        } else {
            Some("live run: run_mode must be paper or live"@)
        }),
        mode matches Ok(mode) ==> mode == (if run_mode is Paper {
            Mode::Paper
        } else {
            Mode::Live
        }),
{
    match run_mode {
        RunMode::Paper => Ok(Mode::Paper),
        RunMode::Live => Ok(Mode::Live),
        _ => Err("live run: run_mode must be paper or live".to_owned()),
    }
}

/// A flag in words.
pub open spec fn flag_name(flag: bool) -> Seq<char> {
    if flag {
        "true"@
    } else {
        "false"@
    }
}

/// The line that reports a finished run.
pub fn report(mode: Mode, deployment: &str, receipt: &str, eligible: bool) -> (line: String)
    ensures
        line@ == "live "@ + mode.name() + " deployment "@ + deployment@ + " receipt "@ + receipt@
            + " eligible "@ + flag_name(eligible),
{
    let mut line = join4("live ", mode.text(), " deployment ", deployment);
    line.append(" receipt ");
    line.append(receipt);
    line.append(" eligible ");
    line.append(if eligible { "true" } else { "false" });
    line
}

/// Points at which a run may be cut off.
#[derive(Debug, Clone, Copy, PartialEq, Eq, Structural)]
pub enum Checkpoint {
    BeforeClaim,
    AfterClaimBeforeWrite,
    DuringWrite,
    AfterWriteBeforeAcknowledgement,
    AfterAcknowledgement,
    BeforeUpload,
    AfterUploadVerification,
    BeforeClaimDeletion,
    AfterClaimDeletion,
}

/// How long the steps of one command took.
#[derive(Debug, Clone, Copy, PartialEq, Eq, Default)]
pub struct Measurements {
    pub market_event_to_decision_micros: Option<i64>,
    pub claim_to_socket_write_micros: Option<i64>,
    pub decision_to_acceptance_micros: Option<i64>,
}

/// What a finished run leaves behind.
#[derive(Debug)]
pub struct FinalManifest {
    pub deployment: String,
    pub ledger: String,
    pub ledger_generation: String,
    pub receipt: String,
    pub journal_segments: Vec<Segment>,
    pub open_tail: Option<Segment>,
    pub measurements: Table<Measurements>,
}

/// The final manifest of a run whose ledger and receipt are published under `destination`.
pub fn final_manifest(
    deployment: String,
    destination: &str,
    ledger_key: &str,
    ledger_generation: String,
    receipt_key: &str,
    journal_segments: Vec<Segment>,
    open_tail: Option<Segment>,
    measurements: Table<Measurements>,
) -> (manifest: FinalManifest)
    ensures
        manifest.deployment == deployment,
        manifest.ledger@ == destination@ + ledger_key@,
        manifest.ledger_generation == ledger_generation,
        manifest.receipt@ == destination@ + receipt_key@,
        manifest.journal_segments == journal_segments,
        manifest.open_tail == open_tail,
        manifest.measurements == measurements,
{
    FinalManifest {
        deployment,
        ledger: join(destination, ledger_key),
        ledger_generation,
        receipt: join(destination, receipt_key),
        journal_segments,
        open_tail,
        measurements,
    }
}

} // verus!
