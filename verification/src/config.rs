//! A configuration document: which of its tables a command needs, and what it is without them.

use crate::lineage::json::Json;
use crate::search::{first_where, first_where_absent, first_where_found};
use crate::text::{join, join4, refusal, same_text};
use vstd::prelude::*;
use vstd::string::*;

verus! {

/// What computes.
#[derive(Debug, Clone, Copy, PartialEq, Eq, Structural)]
pub enum Backend {
    Cpu,
    Cuda,
}

/// A configuration: its schema, run mode and storage as they are written, and its tables.
#[derive(Debug)]
pub struct Config {
    pub schema: String,
    pub run_mode: String,
    pub storage: String,
    pub import: Option<Json>,
    pub instruments: Vec<Json>,
    pub features: Option<Json>,
    pub outcomes: Option<Json>,
    pub replay: Option<Json>,
    pub accelerator: Option<Backend>,
    pub search: Option<Json>,
    pub portfolio: Option<Json>,
    pub brokers: Vec<Json>,
    pub history: Option<Json>,
    pub inspect: Option<Json>,
}

/// The schema, run mode and storage of a configuration with every table cleared: the base of a
/// configuration whose hash and generations depend on nothing but the one table that is added.
pub fn skeleton(config: &Config) -> (base: Config)
    ensures
        base.schema@ == config.schema@,
        base.run_mode@ == config.run_mode@,
        base.storage@ == config.storage@,
        base.import is None,
        base.instruments@.len() == 0,
        base.features is None,
        base.outcomes is None,
        base.replay is None,
        base.accelerator is None,
        base.search is None,
        base.portfolio is None,
        base.brokers@.len() == 0,
        base.history is None,
        base.inspect is None,
{
    Config {
        schema: config.schema.clone(),
        run_mode: config.run_mode.clone(),
        storage: config.storage.clone(),
        import: None,
        instruments: Vec::new(),
        features: None,
        outcomes: None,
        replay: None,
        accelerator: None,
        search: None,
        portfolio: None,
        brokers: Vec::new(),
        history: None,
        inspect: None,
    }
}

/// A configuration may ask for nothing that the program was built without.
pub fn check_backend(backend: Option<Backend>, built_with_cuda: bool) -> (result: Result<(), String>)
    ensures
        refusal(result) == if !built_with_cuda && backend == Some(Backend::Cuda) {
            Some(
                "accelerator.backend: `cuda` requested but this binary was built without the `cuda` feature"@,
            )
        } else {
            None
        },
{
    if !built_with_cuda {
        if let Some(Backend::Cuda) = backend {
            return Err(
                "accelerator.backend: `cuda` requested but this binary was built without the `cuda` feature".to_owned(),
            );
        }
    }
    Ok(())
}

/// What validating a configuration prints: its content hash, and its canonical form.
pub fn validation_report(content_hash: &str, canonical: &str) -> (report: String)
    ensures
        report@ == "# content-hash: "@ + content_hash@ + "\n"@ + canonical@,
{
    join4("# content-hash: ", content_hash, "\n", canonical)
}

/// The broker families that a configuration can declare.
#[derive(Debug, Clone, Copy, PartialEq, Eq, Structural)]
pub enum BrokerKind {
    Deriv,
    PocketOption,
}

/// A declared broker.
#[derive(Debug)]
pub struct DeclaredBroker {
    pub id: String,
    pub kind: BrokerKind,
}

/// Whether a broker has this name.
pub open spec fn is_broker(id: Seq<char>) -> spec_fn(DeclaredBroker) -> bool {
    |broker: DeclaredBroker| broker.id@ == id
}

/// The kind of the first broker of a name.
pub open spec fn kind_of(brokers: Seq<DeclaredBroker>, id: Seq<char>) -> Option<BrokerKind> {
    match first_where(brokers, is_broker(id)) {
        Some(at) => Some(brokers[at].kind),
        None => None,
    }
}

fn find_kind(brokers: &Vec<DeclaredBroker>, id: &str) -> (kind: Option<BrokerKind>)
    ensures
        kind == kind_of(brokers@, id@),
{
    let ghost wanted = is_broker(id@);
    let mut i: usize = 0;
    while i < brokers.len()
        invariant
            i <= brokers@.len(),
            wanted == is_broker(id@),
            forall|j: int| 0 <= j < i ==> !wanted(#[trigger] brokers@[j]),
        decreases brokers@.len() - i,
    {
        if same_text(brokers[i].id.as_str(), id) {
            proof {
                first_where_found(brokers@, wanted, i as int);
            }
            return Some(brokers[i].kind);
        }
        i = i + 1;
    }
    proof {
        first_where_absent(brokers@, wanted);
    }
    None
}

/// Finds the broker that a command runs against; `command` is the command's name.
pub fn declared_broker(command: &str, brokers: &Vec<DeclaredBroker>, id: &str) -> (kind: Result<
    BrokerKind,
    String,
>)
    ensures
        match kind_of(brokers@, id@) {
            Some(found) => kind == Ok::<BrokerKind, String>(found),
            None => refusal(kind) == Some(command@ + ": broker is not declared"@),
        },
{
    match find_kind(brokers, id) {
        Some(kind) => Ok(kind),
        None => Err(join(command, ": broker is not declared")),
    }
}

/// Only options of one broker family are traded live.
pub fn check_adapter(brokers: &Vec<DeclaredBroker>, id: &str) -> (checked: Result<(), String>)
    ensures
        refusal(checked) == (if kind_of(brokers@, id@) == Some(BrokerKind::Deriv) {
            None
        } else {
            Some("live: only the current Deriv options adapter is supported"@)
        }),
{
    match find_kind(brokers, id) {
        Some(BrokerKind::Deriv) => Ok(()),
        _ => Err("live: only the current Deriv options adapter is supported".to_owned()),
    }
}

/// Features are built of at least one instrument; `instruments` is how many are declared, where
/// the table is there at all.
pub fn check_features(instruments: Option<usize>) -> (count: Result<usize, String>)
    ensures
        match instruments {
            Some(declared) => if declared > 0 {
                count == Ok::<usize, String>(declared)
            } else {
                refusal(count) == Some("features.instruments: at least one entry is required"@)
            },
            None => refusal(count) == Some("features.instruments: at least one entry is required"@),
        },
{
    match instruments {
        Some(declared) if declared > 0 => Ok(declared),
        _ => Err("features.instruments: at least one entry is required".to_owned()),
    }
}

/// A live run needs the table that says what to run, and a replay of one also what to replay.
pub fn check_live(declared: bool, replays: bool, has_replay: bool) -> (checked: Result<(), String>)
    ensures
        refusal(checked) == if !declared {
            Some("live: the table is required"@)
        } else if replays && !has_replay {
            Some("live replay: live.replay is required"@)
        } else {
            None
        },
{
    if !declared {
        return Err("live: the table is required".to_owned());
    }
    if replays && !has_replay {
        return Err("live replay: live.replay is required".to_owned());
    }
    Ok(())
}

/// The broker whose recorded log a replay reads must be declared, and of the traded family.
pub fn check_replayed(brokers: &Vec<DeclaredBroker>, id: &str) -> (checked: Result<(), String>)
    ensures
        refusal(checked) == match kind_of(brokers@, id@) {
            None => Some("live: broker missing"@),
            Some(BrokerKind::Deriv) => None,
            Some(BrokerKind::PocketOption) => Some("live: Deriv broker required"@),
        },
{
    match find_kind(brokers, id) {
        None => Err("live: broker missing".to_owned()),
        Some(BrokerKind::Deriv) => Ok(()),
        Some(BrokerKind::PocketOption) => Err("live: Deriv broker required".to_owned()),
    }
}

/// A published stream is found by the definition of its instrument.
pub fn check_mapped(instrument: &str, declared: bool) -> (checked: Result<(), String>)
    ensures
        refusal(checked) == if declared {
            None
        } else {
            Some("no configured instrument maps "@ + instrument@)
        },
{
    if declared {
        Ok(())
    } else {
        Err(join("no configured instrument maps ", instrument))
    }
}

} // verus!
