//! When a completed feature generation is taken instead of building it again.

use crate::digest::{digest, hex, sha256};
use crate::features::plan::{FeatureManifest, StreamSummary};
use crate::market::DatasetRole;
use crate::text::{append_decimal, decimal, join, join4, refusal, same_text, text_of};
use vstd::prelude::*;
use vstd::string::*;

verus! {

/// How a clash with something that was already published reads.
pub open spec fn conflict(reason: Seq<char>) -> Seq<char> {
    "immutable feature generation conflict: "@ + reason
}

/// How a clash with something that was already published reads.
pub fn immutable_conflict(reason: &str) -> (message: String)
    ensures
        message@ == conflict(reason@),
{
    join("immutable feature generation conflict: ", reason)
}

/// Where the receipt of a fit is stored, by the digest of its request.
pub open spec fn receipt_key(request: Seq<u8>) -> Seq<char> {
    "features/fits/"@ + hex(sha256(request))
}

/// Where the receipt of a fit is stored; `request` is the request as it is written.
pub fn fit_receipt_key(request: &[u8]) -> (key: String)
    ensures
        key@ == receipt_key(request@),
{
    join("features/fits/", digest(request).as_str())
}

/// What a fit is asked for.
#[derive(Debug)]
pub struct FitRequest {
    pub code_revision: String,
    pub unfitted_plan_identity: String,
    pub input_generation: String,
    pub profile_generation: String,
    pub role: DatasetRole,
}

/// What a finished fit left behind.
#[derive(Debug)]
pub struct FitReceipt {
    pub request_digest: String,
    pub code_revision: String,
    pub generation: String,
}

/// Whether a character is a digit in base sixteen, of either case.
pub open spec fn is_hex(c: char) -> bool {
    ('0' <= c && c <= '9') || ('a' <= c && c <= 'f') || ('A' <= c && c <= 'F')
}

/// Whether a text may name a generation: 64 digits in base sixteen.
pub open spec fn is_generation(text: Seq<char>) -> bool {
    text.len() == 64 && forall|i: int| 0 <= i < text.len() ==> is_hex(#[trigger] text[i])
}

fn names_generation(text: &str) -> (names: bool)
    ensures
        names == is_generation(text@),
{
    if text.unicode_len() != 64 {
        return false;
    }
    let mut i: usize = 0;
    while i < 64
        invariant
            i <= 64,
            text@.len() == 64,
            forall|j: int| 0 <= j < i ==> is_hex(#[trigger] text@[j]),
        decreases 64 - i,
    {
        let c: char = text.get_char(i);
        if !((c >= '0' && c <= '9') || (c >= 'a' && c <= 'f') || (c >= 'A' && c <= 'F')) {
            assert(!is_hex(text@[i as int]));
            return false;
        }
        i = i + 1;
    }
    true
}

/// Whether a receipt answers a request.
pub open spec fn answers(receipt: FitReceipt, request: Seq<u8>, revision: Seq<char>) -> bool {
    &&& receipt.request_digest@ == hex(sha256(request))
    &&& receipt.code_revision@ == revision
    &&& is_generation(receipt.generation@)
}

/// Checks the receipt that is stored at `uri`; `request` is the request as it is written.
pub fn check_receipt(
    receipt: &FitReceipt,
    request: &[u8],
    revision: &str,
    uri: &str,
) -> (result: Result<(), String>)
    ensures
        refusal(result) == if answers(*receipt, request@, revision@) {
            None
        } else {
            Some(conflict(uri@ + " does not match the fit request"@))
        },
{
    let digest = digest(request);
    if same_text(receipt.request_digest.as_str(), digest.as_str()) && same_text(
        receipt.code_revision.as_str(),
        revision,
    ) && names_generation(receipt.generation.as_str()) {
        Ok(())
    } else {
        Err(immutable_conflict(join(uri, " does not match the fit request").as_str()))
    }
}

/// Whether a generation is one that a fit request would give, as far as its manifest tells.
pub open spec fn fits(manifest: FeatureManifest, request: FitRequest) -> bool {
    &&& manifest.role == request.role
    &&& manifest.input_generation@ == request.input_generation@
    &&& manifest.profile_generation@ == request.profile_generation@
    &&& manifest.code_revision@ == request.code_revision@
    &&& manifest.frozen_from is None
}

/// Whether a generation is one that a fit request would give, as far as its manifest tells.
pub fn fits_request(manifest: &FeatureManifest, request: &FitRequest) -> (fitting: bool)
    ensures
        fitting == fits(*manifest, *request),
{
    manifest.role == request.role && same_text(
        manifest.input_generation.as_str(),
        request.input_generation.as_str(),
    ) && same_text(manifest.profile_generation.as_str(), request.profile_generation.as_str())
        && same_text(manifest.code_revision.as_str(), request.code_revision.as_str())
        && manifest.frozen_from.is_none()
}

/// What comes of a generation that a receipt names: its verification, or the clash that refuses
/// it.
pub open spec fn reuse_of(
    manifest: FeatureManifest,
    request: FitRequest,
    uri: Seq<char>,
    verified: Result<String, String>,
    unfitted: Result<String, String>,
) -> Result<Seq<char>, Seq<char>> {
    if !fits(manifest, request) {
        Err(conflict(uri + " does not match the fit request"@))
    } else if verified is Err {
        Err(conflict(verified->Err_0@))
    } else if unfitted is Err {
        Err(conflict(unfitted->Err_0@))
    } else if unfitted->Ok_0@ != request.unfitted_plan_identity@ {
        Err(conflict(uri + " has a different unfitted plan"@))
    } else {
        Ok(verified->Ok_0@)
    }
}

/// The texts that a result holds.
pub open spec fn outcome(result: Result<String, String>) -> Result<Seq<char>, Seq<char>> {
    match result {
        Ok(text) => Ok(text@),
        Err(reason) => Err(reason@),
    }
}

/// Takes the generation that a receipt names: its manifest must fit the request, its objects
/// must verify, and the plan it applied must be the requested one before its fit.
pub fn reuse_fit(
    manifest: &FeatureManifest,
    request: &FitRequest,
    uri: &str,
    verified: &Result<String, String>,
    unfitted: &Result<String, String>,
) -> (result: Result<String, String>)
    ensures
        outcome(result) == reuse_of(*manifest, *request, uri@, *verified, *unfitted),
{
    if !fits_request(manifest, request) {
        return Err(immutable_conflict(join(uri, " does not match the fit request").as_str()));
    }
    let line = match verified {
        Ok(line) => line,
        Err(reason) => {
            return Err(immutable_conflict(reason.as_str()));
        },
    };
    match unfitted {
        Ok(identity) => {
            if !same_text(identity.as_str(), request.unfitted_plan_identity.as_str()) {
                return Err(
                    immutable_conflict(join(uri, " has a different unfitted plan").as_str()),
                );
            }
        },
        Err(reason) => {
            return Err(immutable_conflict(reason.as_str()));
        },
    }
    Ok(line.clone())
}

/// A receipt is written for a generation that would be taken for its request.
pub fn writes_receipt(
    manifest: &FeatureManifest,
    request: &Option<FitRequest>,
    unfitted: &str,
) -> (written: bool)
    ensures
        written == (request is Some && fits(*manifest, request->0)
            && unfitted@ == request->0.unfitted_plan_identity@),
{
    match request {
        Some(request) => fits_request(manifest, request) && same_text(
            unfitted,
            request.unfitted_plan_identity.as_str(),
        ),
        None => false,
    }
}

/// A generation for which a receipt was written is taken by the next equal request, once its
/// objects verify.
pub proof fn a_receipted_fit_is_reused(
    manifest: FeatureManifest,
    request: FitRequest,
    uri: Seq<char>,
    verified: Result<String, String>,
    unfitted: Result<String, String>,
)
    requires
        fits(manifest, request),
        unfitted is Ok,
        unfitted->Ok_0@ == request.unfitted_plan_identity@,
        verified is Ok,
    ensures
        reuse_of(manifest, request, uri, verified, unfitted) == Ok::<Seq<char>, Seq<char>>(
            verified->Ok_0@,
        ),
{
}

/// What a frozen application is asked for.
#[derive(Debug)]
pub struct FrozenRequest {
    pub role: DatasetRole,
    pub input_generation: String,
    pub profile_generation: String,
    pub frozen_from: String,
    pub plan_identity: String,
    pub code_revision: String,
}

/// Whether a generation applies the frozen plan that a request names.
pub open spec fn applies(manifest: FeatureManifest, request: FrozenRequest) -> bool {
    &&& manifest.role == request.role
    &&& manifest.input_generation@ == request.input_generation@
    &&& manifest.profile_generation@ == request.profile_generation@
    &&& text_of(manifest.frozen_from) == Some(request.frozen_from@)
    &&& manifest.plan_identity@ == request.plan_identity@
}

/// What comes of the generation that a frozen application would publish, where it is already
/// there: a clash, nothing where another revision made it or this one cannot be reused, or its
/// verification. Its objects are verified whichever revision made it.
pub open spec fn frozen_reuse(
    manifest: FeatureManifest,
    request: FrozenRequest,
    uri: Seq<char>,
    verified: Result<String, String>,
    reusable: bool,
) -> Result<Option<Seq<char>>, Seq<char>> {
    if !applies(manifest, request) {
        Err(conflict(uri + " does not match the frozen application request"@))
    } else if verified is Err {
        Err(conflict(verified->Err_0@))
    } else if manifest.code_revision@ == request.code_revision@ && reusable {
        Ok(Some(verified->Ok_0@))
    } else {
        Ok(None)
    }
}

/// What an optional result holds.
pub open spec fn optional_outcome(result: Result<Option<String>, String>) -> Result<
    Option<Seq<char>>,
    Seq<char>,
> {
    match result {
        Ok(text) => Ok(text_of(text)),
        Err(reason) => Err(reason@),
    }
}

fn applies_frozen(manifest: &FeatureManifest, request: &FrozenRequest) -> (same: bool)
    ensures
        same == applies(*manifest, *request),
{
    let frozen: bool = match &manifest.frozen_from {
        Some(from) => same_text(from.as_str(), request.frozen_from.as_str()),
        None => false,
    };
    manifest.role == request.role && same_text(
        manifest.input_generation.as_str(),
        request.input_generation.as_str(),
    ) && same_text(manifest.profile_generation.as_str(), request.profile_generation.as_str())
        && frozen && same_text(manifest.plan_identity.as_str(), request.plan_identity.as_str())
}

/// Looks at the generation that a frozen application would publish, where it is already there.
pub fn check_frozen_ready(
    manifest: &FeatureManifest,
    request: &FrozenRequest,
    uri: &str,
    verified: &Result<String, String>,
    reusable: bool,
) -> (result: Result<Option<String>, String>)
    ensures
        optional_outcome(result) == frozen_reuse(*manifest, *request, uri@, *verified, reusable),
{
    if !applies_frozen(manifest, request) {
        return Err(
            immutable_conflict(
                join(uri, " does not match the frozen application request").as_str(),
            ),
        );
    }
    match verified {
        Err(reason) => Err(immutable_conflict(reason.as_str())),
        Ok(line) => {
            if same_text(manifest.code_revision.as_str(), request.code_revision.as_str())
                && reusable {
                Ok(Some(line.clone()))
            } else {
                Ok(None)
            }
        },
    }
}

/// All rows of streams.
pub open spec fn rows_of(streams: Seq<StreamSummary>) -> int
    decreases streams.len(),
{
    if streams.len() == 0 {
        0
    } else {
        rows_of(streams.drop_last()) + streams.last().rows
    }
}

/// All events of streams.
pub open spec fn events_of(streams: Seq<StreamSummary>) -> int
    decreases streams.len(),
{
    if streams.len() == 0 {
        0
    } else {
        events_of(streams.drop_last()) + streams.last().structure_events
            + streams.last().sequence_events
    }
}

proof fn totals_grow(streams: Seq<StreamSummary>, n: int)
    requires
        0 <= n <= streams.len(),
    ensures
        0 <= rows_of(streams.take(n)) <= rows_of(streams),
        0 <= events_of(streams.take(n)) <= events_of(streams),
    decreases streams.len(),
{
    if n == streams.len() {
        assert(streams.take(n) =~= streams);
        if n > 0 {
            totals_grow(streams.drop_last(), n - 1);
            assert(streams.drop_last().take(n - 1) =~= streams.drop_last());
        }
    } else {
        totals_grow(streams.drop_last(), n);
        assert(streams.drop_last().take(n) =~= streams.take(n));
    }
}

/// All rows and all events of streams.
pub fn totals(streams: &Vec<StreamSummary>) -> (sums: (u64, u64))
    requires
        rows_of(streams@) <= u64::MAX,
        events_of(streams@) <= u64::MAX,
    ensures
        sums.0 == rows_of(streams@),
        sums.1 == events_of(streams@),
{
    let mut rows: u64 = 0;
    let mut events: u64 = 0;
    let mut i: usize = 0;
    while i < streams.len()
        invariant
            i <= streams@.len(),
            rows_of(streams@) <= u64::MAX,
            events_of(streams@) <= u64::MAX,
            rows == rows_of(streams@.take(i as int)),
            events == events_of(streams@.take(i as int)),
        decreases streams@.len() - i,
    {
        proof {
            totals_grow(streams@, i + 1);
            assert(streams@.take(i + 1).drop_last() =~= streams@.take(i as int));
        }
        rows = rows + streams[i].rows;
        events = events + streams[i].structure_events + streams[i].sequence_events;
        i = i + 1;
    }
    assert(streams@.take(i as int) =~= streams@);
    (rows, events)
}

/// The report of a generation that was taken instead of building it.
pub open spec fn reused_report(manifest: FeatureManifest, verified: Seq<char>) -> Seq<char> {
    let count = decimal(manifest.objects@.len());
    "features "@ + manifest.instrument@ + " "@ + manifest.role_name@ + " generation "@
        + manifest.generation@ + " plan "@ + manifest.plan_identity@ + " input "@
        + manifest.input_generation@ + " observations "@ + decimal(manifest.observations as nat)
        + " rows "@ + decimal(rows_of(manifest.streams@) as nat) + " events "@ + decimal(
        events_of(manifest.streams@) as nat,
    ) + " objects "@ + count + " reused "@ + count + " (already published)\n"@ + verified
}

/// The report of a generation that was taken instead of building it.
pub fn reused_feature(manifest: &FeatureManifest, verified: &str) -> (report: String)
    requires
        rows_of(manifest.streams@) <= u64::MAX,
        events_of(manifest.streams@) <= u64::MAX,
    ensures
        report@ == reused_report(*manifest, verified@),
{
    let sums = totals(&manifest.streams);
    let count: u64 = manifest.objects.len() as u64;
    let mut report = join4(
        "features ",
        manifest.instrument.as_str(),
        " ",
        manifest.role_name.as_str(),
    );
    report.append(" generation ");
    report.append(manifest.generation.as_str());
    report.append(" plan ");
    report.append(manifest.plan_identity.as_str());
    report.append(" input ");
    report.append(manifest.input_generation.as_str());
    report.append(" observations ");
    append_decimal(&mut report, manifest.observations);
    report.append(" rows ");
    append_decimal(&mut report, sums.0);
    report.append(" events ");
    append_decimal(&mut report, sums.1);
    report.append(" objects ");
    append_decimal(&mut report, count);
    report.append(" reused ");
    append_decimal(&mut report, count);
    report.append(" (already published)\n");
    report.append(verified);
    proof {
        totals_grow(manifest.streams@, 0);
    }
    report
}

} // verus!
