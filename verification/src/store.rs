//! Create-once objects: what a key holds never changes.

use crate::text::{join, refusal};
use vstd::prelude::*;

verus! {

/// What storing an object came to.
#[derive(Debug, Clone, Copy, PartialEq, Eq, Structural)]
pub enum Stored {
    Created,
    /// The same bytes were there.
    Reused,
}

/// What is decided about bytes that are to be stored under a key: they are created where the key
/// holds nothing, reused where it holds the same, and refused where it holds others.
pub open spec fn stores(
    held: Option<Seq<u8>>,
    bytes: Seq<u8>,
    uri: Seq<char>,
    stored: Result<Stored, String>,
) -> bool {
    match held {
        None => stored == Ok::<Stored, String>(Stored::Created),
        Some(held) => if held == bytes {
            stored == Ok::<Stored, String>(Stored::Reused)
        } else {
            refusal(stored) == Some(uri + " already holds different content"@)
        },
    }
}

/// What a key holds once a decision was carried out: only what is created is written.
pub open spec fn held_after(
    held: Option<Seq<u8>>,
    bytes: Seq<u8>,
    stored: Result<Stored, String>,
) -> Option<Seq<u8>> {
    match stored {
        Ok(Stored::Created) => Some(bytes),
        _ => held,
    }
}

/// Whether bytes are the same.
pub fn same_bytes(a: &[u8], b: &[u8]) -> (same: bool)
    ensures
        same == (a@ == b@),
{
    if a.len() != b.len() {
        return false;
    }
    let mut i: usize = 0;
    while i < a.len()
        invariant
            i <= a@.len(),
            a@.len() == b@.len(),
            forall|j: int| 0 <= j < i ==> a@[j] == b@[j],
        decreases a@.len() - i,
    {
        if a[i] != b[i] {
            assert(a@[i as int] != b@[i as int]);
            return false;
        }
        i = i + 1;
    }
    assert(a@ =~= b@);
    true
}

/// Decides about an object that is to be stored at `uri`, whose key holds `held`.
pub fn put_new(held: Option<&[u8]>, bytes: &[u8], uri: &str) -> (stored: Result<Stored, String>)
    ensures
        stores(
            match held {
                Some(held) => Some(held@),
                None => None,
            },
            bytes@,
            uri@,
            stored,
        ),
{
    match held {
        None => Ok(Stored::Created),
        Some(held) => if same_bytes(held, bytes) {
            Ok(Stored::Reused)
        } else {
            Err(join(uri, " already holds different content"))
        },
    }
}

/// Whether bytes were stored one after the other under a key, which held nothing at first.
pub open spec fn is_run(
    held: Seq<Option<Seq<u8>>>,
    puts: Seq<Seq<u8>>,
    uri: Seq<char>,
    stored: Seq<Result<Stored, String>>,
) -> bool {
    &&& held.len() == puts.len() + 1
    &&& stored.len() == puts.len()
    &&& held[0] is None
    &&& forall|k: int|
        0 <= k < puts.len() ==> stores(held[k], #[trigger] puts[k], uri, stored[k])
            && held[k + 1] == held_after(held[k], puts[k], stored[k])
}

/// What a key holds stays: however often something is stored under it later, it holds the first
/// bytes, and nothing but those is accepted.
pub proof fn the_first_bytes_stay(
    held: Seq<Option<Seq<u8>>>,
    puts: Seq<Seq<u8>>,
    uri: Seq<char>,
    stored: Seq<Result<Stored, String>>,
    k: int,
)
    requires
        is_run(held, puts, uri, stored),
        0 <= k < puts.len(),
    ensures
        held[k + 1] == Some(puts[0]),
        stored[k] is Ok <==> puts[k] == puts[0],
    decreases k,
{
    if k > 0 {
        the_first_bytes_stay(held, puts, uri, stored, k - 1);
    }
    assert(stores(held[k], puts[k], uri, stored[k]));
}

} // verus!
