//! What a feature build is bound to: the dataset that it reads, the profile that it was made
//! from, and the plan that it resolves or applies.

use crate::live::rows::StreamKey;
use crate::market::{DatasetRole, NativeGranularity};
use crate::table::Table;
use crate::text::{append_decimal, decimal, join, join3, join4, refusal, same_text, text_of};
use vstd::prelude::*;
use vstd::string::*;

verus! {

/// What an owned stream is called.
pub open spec fn stream_owned(
    instrument: Seq<char>,
    role: Seq<char>,
    stream: StreamKey,
) -> Seq<char> {
    instrument + " "@ + role + " "@ + decimal(stream.duration_seconds as nat) + "s/"@ + decimal(
        stream.offset_seconds as nat,
    ) + "s"@
}

fn owned_text(instrument: &str, role: &str, stream: StreamKey) -> (text: String)
    ensures
        text@ == stream_owned(instrument@, role@, stream),
{
    let mut text = join4(instrument, " ", role, " ");
    append_decimal(&mut text, stream.duration_seconds as u64);
    text.append("s/");
    append_decimal(&mut text, stream.offset_seconds as u64);
    text.append("s");
    text
}

/// What an entry of a configuration owns.
pub open spec fn entry_owned(
    instrument: Seq<char>,
    role: Seq<char>,
    streams: Seq<StreamKey>,
) -> Seq<Seq<char>> {
    streams.map_values(|stream: StreamKey| stream_owned(instrument, role, stream))
}

/// The owners once an entry has claimed streams one by one, and the first claim that another
/// owner refuses.
pub open spec fn claimed(
    owners: Map<Seq<char>, usize>,
    names: Seq<Seq<char>>,
    index: usize,
) -> (Map<Seq<char>, usize>, Option<(Seq<char>, usize)>)
    decreases names.len(),
{
    if names.len() == 0 {
        (owners, None)
    } else if owners.dom().contains(names[0]) {
        (owners.insert(names[0], index), Some((names[0], owners[names[0]])))
    } else {
        claimed(owners.insert(names[0], index), names.skip(1), index)
    }
}

/// Why a claim is refused.
pub open spec fn already_owned(index: usize, owned: Seq<char>, owner: usize) -> Seq<char> {
    "features.instruments["@ + decimal(index as nat) + "]: "@ + owned
        + " is already owned by features.instruments["@ + decimal(owner as nat) + "]"@
}

/// Claims every stream of the entry at `index`; a stream has one owner in one role.
pub fn claim_streams(
    owners: &mut Table<usize>,
    index: usize,
    instrument: &str,
    role: &str,
    streams: &Vec<StreamKey>,
) -> (result: Result<(), String>)
    ensures
        ({
            let after = claimed(
                old(owners)@,
                entry_owned(instrument@, role@, streams@),
                index,
            );
            &&& final(owners)@ == after.0
            &&& refusal(result) == match after.1 {
                Some((owned, owner)) => Some(already_owned(index, owned, owner)),
                None => None,
            }
        }),
{
    let ghost names = entry_owned(instrument@, role@, streams@);
    let ghost start = owners@;
    let mut i: usize = 0;
    assert(names.skip(0) =~= names);
    while i < streams.len()
        invariant
            i <= streams@.len(),
            names == entry_owned(instrument@, role@, streams@),
            start == old(owners)@,
            claimed(owners@, names.skip(i as int), index) == claimed(start, names, index),
        decreases streams@.len() - i,
    {
        let owned = owned_text(instrument, role, streams[i]);
        let ghost before = owners@;
        assert(owned@ == names[i as int]);
        assert(names.skip(i as int)[0] == names[i as int]);
        assert(names.skip(i as int).skip(1) =~= names.skip(i + 1));
        let owner: Option<usize> = match owners.get(owned.as_str()) {
            Some(owner) => Some(*owner),
            None => None,
        };
        owners.insert(owned.clone(), index);
        if let Some(owner) = owner {
            let mut message = "features.instruments[".to_owned();
            append_decimal(&mut message, index as u64);
            message.append("]: ");
            message.append(owned.as_str());
            message.append(" is already owned by features.instruments[");
            append_decimal(&mut message, owner as u64);
            message.append("]");
            return Err(message);
        }
        i = i + 1;
    }
    assert(names.skip(i as int).len() == 0);
    Ok(())
}

/// Streams that were claimed without a refusal differ from each other and from every stream
/// that had an owner, and all of them are owned by the entry: no stream has two owners.
pub proof fn every_stream_has_one_owner(
    owners: Map<Seq<char>, usize>,
    names: Seq<Seq<char>>,
    index: usize,
)
    requires
        claimed(owners, names, index).1 is None,
    ensures
        names.no_duplicates(),
        forall|name: Seq<char>| #[trigger]
            names.contains(name) ==> !owners.dom().contains(name) && claimed(
                owners,
                names,
                index,
            ).0.dom().contains(name) && claimed(owners, names, index).0[name] == index,
        forall|name: Seq<char>| #[trigger]
            owners.dom().contains(name) ==> claimed(owners, names, index).0.dom().contains(name)
                && claimed(owners, names, index).0[name] == owners[name],
    decreases names.len(),
{
    if names.len() > 0 {
        let rest = names.skip(1);
        let next = owners.insert(names[0], index);
        every_stream_has_one_owner(next, rest, index);
        let after = claimed(owners, names, index).0;
        assert(after == claimed(next, rest, index).0);
        assert(next.dom().contains(names[0]));
        assert forall|name: Seq<char>| #[trigger] names.contains(name) implies
            !owners.dom().contains(name) && after.dom().contains(name) && after[name] == index by {
            let at = choose|at: int| 0 <= at < names.len() && names[at] == name;
            if at > 0 {
                assert(rest[at - 1] == name);
                assert(rest.contains(name));
            }
        }
        assert forall|i: int, j: int| 0 <= i < j < names.len() implies names[i] != names[j] by {
            assert(rest[j - 1] == names[j]);
            assert(rest.contains(names[j]));
            if i > 0 {
                assert(rest[i - 1] == names[i]);
            }
        }
        assert forall|name: Seq<char>| #[trigger] owners.dom().contains(name) implies
            after.dom().contains(name) && after[name] == owners[name] by {
            assert(next.dom().contains(name));
        }
    }
}

/// The manifest of the dataset that a build reads.
#[derive(Debug)]
pub struct InputManifest {
    pub generation: String,
    /// The key that the manifest gives itself.
    pub key: String,
    pub role: DatasetRole,
    /// The role as reports print it.
    pub role_name: String,
    pub instrument: String,
    pub broker: String,
    pub provider_symbol: String,
    pub native_granularity: NativeGranularity,
    /// The granularity as reports print it.
    pub granularity_name: String,
}

/// The manifest of the streams that a profile was published with.
#[derive(Debug)]
pub struct ProfileManifest {
    pub generation: String,
    /// The key that the manifest gives itself.
    pub key: String,
    pub role: DatasetRole,
    /// The role as reports print it.
    pub role_name: String,
    pub instrument: String,
    pub broker: String,
    pub provider_symbol: String,
    pub native_granularity: NativeGranularity,
    /// The granularity as reports print it.
    pub granularity_name: String,
    pub source_generation: String,
    /// The generation that the profile object says it describes.
    pub profile_source: String,
}

/// Why a manifest of some kind is no dataset.
pub open spec fn wrong_input_kind(uri: Seq<char>, kind: Option<Seq<char>>) -> Option<Seq<char>> {
    match kind {
        Some(kind) => Some(
            "input_manifest: "@ + uri + " is a `"@ + kind
                + "` manifest, not a dataset ready manifest"@,
        ),
        None => None,
    }
}

/// The input must be a dataset: its manifest names no other kind.
pub fn check_input_kind(uri: &str, kind: &Option<String>) -> (result: Result<(), String>)
    ensures
        refusal(result) == wrong_input_kind(uri@, text_of(*kind)),
{
    match kind {
        Some(kind) => {
            let mut message = join4("input_manifest: ", uri, " is a `", kind.as_str());
            message.append("` manifest, not a dataset ready manifest");
            Err(message)
        },
        None => Ok(()),
    }
}

/// Why an input manifest is refused: it is another generation's, it is protected, or its role is
/// not the declared one.
pub open spec fn wrong_input(
    uri: Seq<char>,
    key: Seq<char>,
    declared: DatasetRole,
    declared_name: Seq<char>,
    input: InputManifest,
    protected: Option<Seq<char>>,
) -> Option<Seq<char>> {
    if input.key@ != key {
        Some("input_manifest: "@ + uri + " holds the manifest of generation "@ + input.generation@)
    } else if input.role == DatasetRole::Holdout && protected is Some {
        Some("input_manifest: holdout data never enters a feature build; "@ + protected->0)
    } else if input.role != declared {
        Some(
            "role: declared `"@ + declared_name + "`, but generation "@ + input.generation@
                + " is `"@ + input.role_name@ + "`"@,
        )
    } else {
        None
    }
}

/// Checks an input manifest that was read under `key`; `protected` is why data of a holdout may
/// not be read here, if it may not.
pub fn check_input(
    uri: &str,
    key: &str,
    declared: DatasetRole,
    declared_name: &str,
    input: &InputManifest,
    protected: &Option<String>,
) -> (result: Result<(), String>)
    ensures
        refusal(result) == wrong_input(
            uri@,
            key@,
            declared,
            declared_name@,
            *input,
            text_of(*protected),
        ),
{
    if !same_text(input.key.as_str(), key) {
        return Err(
            join4(
                "input_manifest: ",
                uri,
                " holds the manifest of generation ",
                input.generation.as_str(),
            ),
        );
    }
    if input.role == DatasetRole::Holdout {
        if let Some(reason) = protected {
            return Err(
                join(
                    "input_manifest: holdout data never enters a feature build; ",
                    reason.as_str(),
                ),
            );
        }
    }
    if input.role != declared {
        let mut message = join4(
            "role: declared `",
            declared_name,
            "`, but generation ",
            input.generation.as_str(),
        );
        message.append(" is `");
        message.append(input.role_name.as_str());
        message.append("`");
        return Err(message);
    }
    Ok(())
}

/// Why a profile manifest is refused before its profile is read.
pub open spec fn wrong_profile(
    uri: Seq<char>,
    key: Seq<char>,
    is_streams: bool,
    manifest: ProfileManifest,
    lookup: Option<Seq<char>>,
    input: InputManifest,
) -> Option<Seq<char>> {
    if !is_streams {
        Some("profile_manifest: "@ + uri + " is not an instrument stream manifest"@)
    } else if manifest.key@ != key {
        Some(
            "profile_manifest: "@ + uri + " holds the manifest of generation "@
                + manifest.generation@,
        )
    } else if manifest.role != DatasetRole::Development {
        Some(
            "profile_manifest: the profile reference is development-only, but generation "@
                + manifest.generation@ + " is `"@ + manifest.role_name@ + "`"@,
        )
    } else if lookup is Some {
        Some("profile_manifest: "@ + lookup->0)
    } else if manifest.broker@ != input.broker@ || manifest.provider_symbol@
        != input.provider_symbol@ || manifest.native_granularity != input.native_granularity {
        Some(
            "profile_manifest: the profile describes "@ + manifest.instrument@ + " at "@
                + manifest.granularity_name@ + " granularity, but the input is "@
                + input.instrument@ + " at "@ + input.granularity_name@ + " granularity"@,
        )
    } else {
        None
    }
}

/// Checks a profile manifest that was read under `key` against the input; `lookup` is why the
/// profile's own source may not be looked at, if it may not.
pub fn check_profile(
    uri: &str,
    key: &str,
    is_streams: bool,
    manifest: &ProfileManifest,
    lookup: &Option<String>,
    input: &InputManifest,
) -> (result: Result<(), String>)
    ensures
        refusal(result) == wrong_profile(
            uri@,
            key@,
            is_streams,
            *manifest,
            text_of(*lookup),
            *input,
        ),
{
    if !is_streams {
        return Err(join3("profile_manifest: ", uri, " is not an instrument stream manifest"));
    }
    if !same_text(manifest.key.as_str(), key) {
        return Err(
            join4(
                "profile_manifest: ",
                uri,
                " holds the manifest of generation ",
                manifest.generation.as_str(),
            ),
        );
    }
    if manifest.role != DatasetRole::Development {
        let mut message = join4(
            "profile_manifest: the profile reference is development-only, but generation ",
            manifest.generation.as_str(),
            " is `",
            manifest.role_name.as_str(),
        );
        message.append("`");
        return Err(message);
    }
    if let Some(reason) = lookup {
        return Err(join("profile_manifest: ", reason.as_str()));
    }
    if !same_text(manifest.broker.as_str(), input.broker.as_str()) || !same_text(
        manifest.provider_symbol.as_str(),
        input.provider_symbol.as_str(),
    ) || manifest.native_granularity != input.native_granularity {
        let mut message = join4(
            "profile_manifest: the profile describes ",
            manifest.instrument.as_str(),
            " at ",
            manifest.granularity_name.as_str(),
        );
        message.append(" granularity, but the input is ");
        message.append(input.instrument.as_str());
        message.append(" at ");
        message.append(input.granularity_name.as_str());
        message.append(" granularity");
        return Err(message);
    }
    Ok(())
}

/// The profile object must describe the source of the manifest that lists it.
pub fn check_profile_source(manifest: &ProfileManifest) -> (result: Result<(), String>)
    ensures
        refusal(result) == if manifest.profile_source@ != manifest.source_generation@ {
            Some("profile_manifest: the profile does not describe the manifest's source"@)
        } else {
            None
        },
{
    if !same_text(manifest.profile_source.as_str(), manifest.source_generation.as_str()) {
        return Err(
            "profile_manifest: the profile does not describe the manifest's source".to_owned(),
        );
    }
    Ok(())
}

/// A new plan is fitted on the generation that its profile was built from.
pub fn check_new_plan(manifest: &ProfileManifest, input: &InputManifest) -> (result: Result<
    (),
    String,
>)
    ensures
        refusal(result) == if manifest.source_generation@ != input.generation@ {
            Some(
                "input_manifest: a new plan fits on the generation its profile was built from ("@
                    + manifest.source_generation@ + "), not "@ + input.generation@,
            )
        } else {
            None
        },
{
    if !same_text(manifest.source_generation.as_str(), input.generation.as_str()) {
        return Err(
            join4(
                "input_manifest: a new plan fits on the generation its profile was built from (",
                manifest.source_generation.as_str(),
                "), not ",
                input.generation.as_str(),
            ),
        );
    }
    Ok(())
}

/// A frozen plan applies under the profile reference that it was frozen under.
pub fn check_frozen_plan(plan_profile: &str, reference: &str) -> (result: Result<(), String>)
    ensures
        refusal(result) == if plan_profile@ != reference@ {
            Some("frozen_plan: the plan was frozen under another profile reference"@)
        } else {
            None
        },
{
    if !same_text(plan_profile, reference) {
        return Err("frozen_plan: the plan was frozen under another profile reference".to_owned());
    }
    Ok(())
}

/// The running totals of a stream, and the bounds of its decisions.
#[derive(Debug, Clone, Copy, PartialEq, Eq, Structural)]
pub struct StreamSummary {
    pub stream: StreamKey,
    pub rows: u64,
    pub structure_events: u64,
    pub sequence_events: u64,
    pub first_decision: Option<i64>,
    pub last_decision: Option<i64>,
}

/// What the ready manifest of a feature generation says.
#[derive(Debug)]
pub struct FeatureManifest {
    pub generation: String,
    /// The key that the manifest gives itself.
    pub key: String,
    pub broker: String,
    pub provider_symbol: String,
    pub instrument: String,
    pub role: DatasetRole,
    /// The role as reports print it.
    pub role_name: String,
    pub input_generation: String,
    pub plan_identity: String,
    pub frozen_from: Option<String>,
    pub profile_generation: String,
    pub config_hash: String,
    pub code_revision: String,
    pub observations: u64,
    pub streams: Vec<StreamSummary>,
    pub objects: Vec<crate::dataset::ObjectRecord>,
}

/// Whether reading a generation needs the certification context that names its input: the
/// generation is a holdout's, or its input is declared to be one.
pub open spec fn holds_out(role: DatasetRole, declared: Option<DatasetRole>) -> bool {
    role == DatasetRole::Holdout || declared == Some(DatasetRole::Holdout)
}

/// Whether reading a generation needs the certification context that names its input.
pub fn needs_certification(role: DatasetRole, declared: Option<DatasetRole>) -> (needed: bool)
    ensures
        needed == holds_out(role, declared),
{
    role == DatasetRole::Holdout || match declared {
        Some(declared) => declared == DatasetRole::Holdout,
        None => false,
    }
}

/// Why a feature manifest that a field of the configuration names is refused. `declared` is the
/// declared role of its input, or why that cannot be told; `protected` is why data of a holdout
/// may not be read here, if it may not.
pub open spec fn wrong_feature(
    field: Seq<char>,
    uri: Seq<char>,
    key: Seq<char>,
    is_feature: bool,
    manifest: FeatureManifest,
    declared: Result<Option<DatasetRole>, String>,
    protected: Option<Seq<char>>,
) -> Option<Seq<char>> {
    if !is_feature {
        Some(field + ": "@ + uri + " is not a feature generation manifest"@)
    } else if manifest.key@ != key {
        Some(field + ": "@ + uri + " holds the manifest of generation "@ + manifest.generation@)
    } else if manifest.role != DatasetRole::Holdout && declared is Err {
        Some(declared->Err_0@)
    } else if protected is Some && (manifest.role == DatasetRole::Holdout || declared == Ok::<
        Option<DatasetRole>,
        String,
    >(Some(DatasetRole::Holdout))) {
        Some(field + ": "@ + uri + ": "@ + protected->0)
    } else {
        None
    }
}

/// Checks a feature manifest that was read under `key`.
pub fn check_feature(
    field: &str,
    uri: &str,
    key: &str,
    is_feature: bool,
    manifest: &FeatureManifest,
    declared: &Result<Option<DatasetRole>, String>,
    protected: &Option<String>,
) -> (result: Result<(), String>)
    ensures
        refusal(result) == wrong_feature(
            field@,
            uri@,
            key@,
            is_feature,
            *manifest,
            *declared,
            text_of(*protected),
        ),
{
    if !is_feature {
        return Err(join4(field, ": ", uri, " is not a feature generation manifest"));
    }
    if !same_text(manifest.key.as_str(), key) {
        let mut message = join4(field, ": ", uri, " holds the manifest of generation ");
        message.append(manifest.generation.as_str());
        return Err(message);
    }
    let mut held_out: bool = manifest.role == DatasetRole::Holdout;
    if !held_out {
        match declared {
            Err(reason) => {
                return Err(reason.clone());
            },
            Ok(role) => {
                held_out = needs_certification(manifest.role, *role);
            },
        }
    }
    if held_out {
        if let Some(reason) = protected {
            let mut message = join4(field, ": ", uri, ": ");
            message.append(reason.as_str());
            return Err(message);
        }
    }
    Ok(())
}

/// What a plan says of itself.
#[derive(Debug)]
pub struct PlanFacts {
    pub identity: String,
    pub instrument: String,
    pub broker: String,
    pub provider_symbol: String,
    /// The generation of the streams that the plan's profile was published with.
    pub stream_generation: String,
    pub fitted: bool,
    pub streams: Vec<StreamKey>,
}

/// Whether a plan is the one that a manifest names: identity, instrument, profile generation,
/// fit, and the same streams in order.
pub open spec fn describes(plan: PlanFacts, manifest: FeatureManifest) -> bool {
    &&& plan.identity@ == manifest.plan_identity@
    &&& plan.instrument@ == manifest.instrument@
    &&& plan.broker@ == manifest.broker@
    &&& plan.provider_symbol@ == manifest.provider_symbol@
    &&& plan.stream_generation@ == manifest.profile_generation@
    &&& plan.fitted
    &&& plan.streams@ == manifest.streams@.map_values(|summary: StreamSummary| summary.stream)
}

fn same_streams(streams: &Vec<StreamKey>, summaries: &Vec<StreamSummary>) -> (same: bool)
    ensures
        same == (streams@ == summaries@.map_values(|summary: StreamSummary| summary.stream)),
{
    let ghost keys = summaries@.map_values(|summary: StreamSummary| summary.stream);
    if streams.len() != summaries.len() {
        assert(streams@.len() != keys.len());
        return false;
    }
    let mut i: usize = 0;
    while i < streams.len()
        invariant
            i <= streams@.len(),
            streams@.len() == summaries@.len(),
            keys == summaries@.map_values(|summary: StreamSummary| summary.stream),
            forall|j: int| 0 <= j < i ==> streams@[j] == #[trigger] keys[j],
        decreases streams@.len() - i,
    {
        if streams[i] != summaries[i].stream {
            assert(streams@[i as int] != keys[i as int]);
            return false;
        }
        i = i + 1;
    }
    assert(streams@ =~= keys);
    true
}

/// Why a plan is not the one that a manifest names.
pub open spec fn misdescribed(plan: PlanFacts, manifest: FeatureManifest) -> Option<Seq<char>> {
    if describes(plan, manifest) {
        None
    } else {
        Some(
            "the plan does not describe the manifest's plan identity, instrument, profile, fit, and streams"@,
        )
    }
}

/// The consistency that every consumer relies on between a plan and the manifest that names it.
pub fn plan_describes(plan: &PlanFacts, manifest: &FeatureManifest) -> (result: Result<(), String>)
    ensures
        refusal(result) == misdescribed(*plan, *manifest),
{
    if !same_text(plan.identity.as_str(), manifest.plan_identity.as_str()) || !same_text(
        plan.instrument.as_str(),
        manifest.instrument.as_str(),
    ) || !same_text(plan.broker.as_str(), manifest.broker.as_str()) || !same_text(
        plan.provider_symbol.as_str(),
        manifest.provider_symbol.as_str(),
    ) || !same_text(plan.stream_generation.as_str(), manifest.profile_generation.as_str())
        || !plan.fitted || !same_streams(&plan.streams, &manifest.streams) {
        return Err(
            "the plan does not describe the manifest's plan identity, instrument, profile, fit, and streams".to_owned(),
        );
    }
    Ok(())
}

/// A generation's manifest must be recorded under its own key.
pub fn check_ready(uri: &str, key: &str, manifest: &FeatureManifest) -> (result: Result<
    (),
    String,
>)
    ensures
        refusal(result) == if manifest.key@ != key@ {
            Some(uri@ + " records another generation"@)
        } else {
            None
        },
{
    if !same_text(manifest.key.as_str(), key) {
        return Err(join(uri, " records another generation"));
    }
    Ok(())
}

} // verus!
