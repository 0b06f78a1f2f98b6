//! Immutable authorization bound to one deployment and execution account.

use crate::store::Stored;
use crate::text::{refusal, same_text};
use vstd::prelude::*;
use vstd::string::*;

verus! {

/// The label under which authorizations and their keys are hashed.
pub const DOMAIN: &'static str = "binary-alpha live authorization v1\n";

/// An operator's authorization of one deployment.
#[derive(Debug)]
pub struct Authorization {
    pub schema_version: u32,
    pub deployment: String,
    pub configuration: String,
    pub bundle_sha256: String,
    pub broker: String,
    pub account: String,
    pub operator: String,
    pub reason: String,
    pub hash: String,
}

/// What an authorization must be bound to.
#[derive(Debug, Clone, Copy)]
pub struct Bindings<'a> {
    pub deployment: &'a str,
    pub configuration: &'a str,
    pub bundle_sha256: &'a str,
    pub broker: &'a str,
    pub account: &'a str,
}

/// The first binding in which an authorization differs.
pub open spec fn mismatch(authorization: Authorization, expected: Bindings) -> Option<Seq<char>> {
    if authorization.deployment@ != expected.deployment@ {
        Some("deployment"@)
    } else if authorization.configuration@ != expected.configuration@ {
        Some("configuration"@)
    } else if authorization.bundle_sha256@ != expected.bundle_sha256@ {
        Some("bundle_sha256"@)
    } else if authorization.broker@ != expected.broker@ {
        Some("broker"@)
    } else if authorization.account@ != expected.account@ {
        Some("account"@)
    } else {
        None
    }
}

/// Why an authorization whose contents hash to `content_hash` does not authorize.
pub open spec fn objection(
    authorization: Authorization,
    expected: Bindings,
    content_hash: Seq<char>,
) -> Option<Seq<char>> {
    if authorization.schema_version != 1 {
        Some("authorization schema_version must be 1"@)
    } else if mismatch(authorization, expected) is Some {
        Some("authorization "@ + mismatch(authorization, expected)->0 + " mismatch"@)
    } else if authorization.operator@.len() == 0 || authorization.reason@.len() == 0 {
        Some("authorization operator and reason must be non-empty"@)
    } else if authorization.hash@ != content_hash {
        Some("authorization hash mismatch"@)
    } else {
        None
    }
}

fn different(name: &str) -> (message: String)
    ensures
        message@ == "authorization "@ + name@ + " mismatch"@,
{
    crate::text::join3("authorization ", name, " mismatch")
}

fn is_blank(text: &str) -> (blank: bool)
    ensures
        blank == (text@.len() == 0),
{
    text.unicode_len() == 0
}

impl Authorization {
    /// Checks every binding, and the hash of every binding but the hash itself.
    pub fn validate(&self, expected: Bindings<'_>, content_hash: &str) -> (checked: Result<
        (),
        String,
    >)
        ensures
            refusal(checked) == objection(*self, expected, content_hash@),
    {
        if self.schema_version != 1 {
            return Err("authorization schema_version must be 1".to_owned());
        }
        if !same_text(self.deployment.as_str(), expected.deployment) {
            return Err(different("deployment"));
        }
        if !same_text(self.configuration.as_str(), expected.configuration) {
            return Err(different("configuration"));
        }
        if !same_text(self.bundle_sha256.as_str(), expected.bundle_sha256) {
            return Err(different("bundle_sha256"));
        }
        if !same_text(self.broker.as_str(), expected.broker) {
            return Err(different("broker"));
        }
        if !same_text(self.account.as_str(), expected.account) {
            return Err(different("account"));
        }
        if is_blank(self.operator.as_str()) || is_blank(self.reason.as_str()) {
            return Err("authorization operator and reason must be non-empty".to_owned());
        }
        if !same_text(self.hash.as_str(), content_hash) {
            return Err("authorization hash mismatch".to_owned());
        }
        Ok(())
    }

    /// What the authorization itself is bound to.
    pub fn bindings(&self) -> (bindings: Bindings<'_>)
        ensures
            mismatch(*self, bindings) is None,
            bindings.deployment@ == self.deployment@,
    {
        Bindings {
            deployment: self.deployment.as_str(),
            configuration: self.configuration.as_str(),
            bundle_sha256: self.bundle_sha256.as_str(),
            broker: self.broker.as_str(),
            account: self.account.as_str(),
        }
    }

    /// Completes an authorization with the hash of its contents before it is published.
    pub fn create(self, content_hash: String) -> (created: Result<Authorization, String>)
        ensures
            refusal(created) == (if self.schema_version != 1 {
                Some("authorization schema_version must be 1"@)
            } else if self.operator@.len() == 0 || self.reason@.len() == 0 {
                Some("authorization operator and reason must be non-empty"@)
            } else {
                None
            }),
            created matches Ok(created) ==> created == (Authorization {
                hash: content_hash,
                ..self
            }),
    {
        let copy = content_hash.clone();
        let completed = Authorization {
            schema_version: self.schema_version,
            deployment: self.deployment,
            configuration: self.configuration,
            bundle_sha256: self.bundle_sha256,
            broker: self.broker,
            account: self.account,
            operator: self.operator,
            reason: self.reason,
            hash: content_hash,
        };
        match completed.validate(completed.bindings(), copy.as_str()) {
            Ok(_) => Ok(completed),
            Err(message) => Err(message),
        }
    }

    /// Checks an authorization that was read for a deployment.
    pub fn check_read(&self, deployment: &str, content_hash: &str) -> (checked: Result<(), String>)
        ensures
            refusal(checked) == (if self.schema_version != 1 {
                Some("authorization schema_version must be 1"@)
            } else if self.deployment@ != deployment@ {
                Some("authorization deployment mismatch"@)
            } else if self.operator@.len() == 0 || self.reason@.len() == 0 {
                Some("authorization operator and reason must be non-empty"@)
            } else if self.hash@ != content_hash@ {
                Some("authorization hash mismatch"@)
            } else {
                None
            }),
    {
        proof {
            reveal_strlit("authorization ");
            reveal_strlit("deployment");
            reveal_strlit(" mismatch");
            reveal_strlit("authorization deployment mismatch");
            assert("authorization "@ + "deployment"@ + " mismatch"@
                =~= "authorization deployment mismatch"@);
        }
        self.validate(
            Bindings {
                deployment,
                configuration: self.configuration.as_str(),
                bundle_sha256: self.bundle_sha256.as_str(),
                broker: self.broker.as_str(),
                account: self.account.as_str(),
            },
            content_hash,
        )
    }
}

/// What becomes of an authorization that a live run asked for: entries stay vetoed unless it is
/// there and bound to exactly this deployment.
pub fn grants(
    found: Result<Option<Authorization>, String>,
    expected: Bindings<'_>,
    content_hash: &str,
) -> (granted: bool)
    ensures
        granted == (found matches Ok(Some(authorization)) && objection(
            authorization,
            expected,
            content_hash@,
        ) is None),
{
    match found {
        Ok(Some(authorization)) => authorization.validate(expected, content_hash).is_ok(),
        _ => false,
    }
}

/// The key of a deployment's authorization, from the labelled hash of the deployment.
pub fn key(deployment_digest: &str) -> (key: String)
    ensures
        key@ == "live/authorizations/"@ + deployment_digest@ + ".json"@,
{
    crate::text::join3("live/authorizations/", deployment_digest, ".json")
}

/// An authorization that is created reads back for its own deployment, and one whose contents
/// changed since does not.
pub proof fn a_created_authorization_reads_back(
    authorization: Authorization,
    content_hash: Seq<char>,
    expected: Bindings,
)
    requires
        authorization.schema_version == 1,
        authorization.operator@.len() > 0,
        authorization.reason@.len() > 0,
        mismatch(authorization, expected) is None,
    ensures
        (objection(authorization, expected, content_hash) is None) == (authorization.hash@
            == content_hash),
{
}

/// Whether two authorizations are the same in every field.
pub open spec fn same_authorization(a: Authorization, b: Authorization) -> bool {
    &&& a.schema_version == b.schema_version
    &&& a.deployment@ == b.deployment@
    &&& a.configuration@ == b.configuration@
    &&& a.bundle_sha256@ == b.bundle_sha256@
    &&& a.broker@ == b.broker@
    &&& a.account@ == b.account@
    &&& a.operator@ == b.operator@
    &&& a.reason@ == b.reason@
    &&& a.hash@ == b.hash@
}

/// What becomes of an authorization whose deployment may have one: `held` is the stored one, or
/// why what is stored does not decode.
pub open spec fn publishes(
    held: Option<Result<Authorization, String>>,
    created: Authorization,
    uri: Seq<char>,
    stored: Result<Stored, String>,
) -> bool {
    match held {
        None => stored == Ok::<Stored, String>(Stored::Created),
        Some(Ok(first)) if same_authorization(first, created) => stored == Ok::<Stored, String>(
            Stored::Reused,
        ),
        Some(_) => refusal(stored) == Some(uri + " already holds different content"@),
    }
}

/// Decides about an authorization that is to be stored: the first of a deployment is never
/// replaced. The same one is reused, and any other is refused. Stored bytes that are written
/// otherwise than the same authorization's are told apart where bytes are stored.
pub fn publish(
    held: Option<&Result<Authorization, String>>,
    created: &Authorization,
    uri: &str,
) -> (stored: Result<Stored, String>)
    ensures
        publishes(
            match held {
                Some(held) => Some(*held),
                None => None,
            },
            *created,
            uri@,
            stored,
        ),
{
    match held {
        None => Ok(Stored::Created),
        Some(Ok(first)) => if first.schema_version == created.schema_version && same_text(
            first.deployment.as_str(),
            created.deployment.as_str(),
        ) && same_text(first.configuration.as_str(), created.configuration.as_str()) && same_text(
            first.bundle_sha256.as_str(),
            created.bundle_sha256.as_str(),
        ) && same_text(first.broker.as_str(), created.broker.as_str()) && same_text(
            first.account.as_str(),
            created.account.as_str(),
        ) && same_text(first.operator.as_str(), created.operator.as_str()) && same_text(
            first.reason.as_str(),
            created.reason.as_str(),
        ) && same_text(first.hash.as_str(), created.hash.as_str()) {
            Ok(Stored::Reused)
        } else {
            Err(crate::text::join(uri, " already holds different content"))
        },
        Some(Err(_)) => Err(crate::text::join(uri, " already holds different content")),
    }
}

/// What is held of a deployment once a decision was carried out: only what is created is written.
pub open spec fn held_after(
    held: Option<Result<Authorization, String>>,
    created: Authorization,
    stored: Result<Stored, String>,
) -> Option<Result<Authorization, String>> {
    match stored {
        Ok(Stored::Created) => Some(Ok(created)),
        _ => held,
    }
}

/// The first authorization of a deployment is never replaced. Publishing it again reuses it,
/// publishing one that differs in any field is refused, and after both it is the first that is
/// held and that reads back, for its own bindings and with the hash of its contents.
pub proof fn the_first_authorization_stands(
    draft: Authorization,
    content_hash: String,
    first: Authorization,
    later: Authorization,
    uri: Seq<char>,
    put: Result<Stored, String>,
    again: Result<Stored, String>,
    other: Result<Stored, String>,
)
    requires
        draft.schema_version == 1,
        draft.operator@.len() > 0,
        draft.reason@.len() > 0,
        first == (Authorization { hash: content_hash, ..draft }),
        !same_authorization(first, later),
        publishes(None, first, uri, put),
        publishes(held_after(None, first, put), first, uri, again),
        publishes(
            held_after(held_after(None, first, put), first, again),
            later,
            uri,
            other,
        ),
    ensures
        put == Ok::<Stored, String>(Stored::Created),
        again == Ok::<Stored, String>(Stored::Reused),
        other is Err,
        held_after(
            held_after(held_after(None, first, put), first, again),
            later,
            other,
        ) == Some(Ok::<Authorization, String>(first)),
        forall|expected: Bindings|
            mismatch(first, expected) is None ==> #[trigger] objection(
                first,
                expected,
                content_hash@,
            ) is None,
{
}

} // verus!
