//! The lineage document of an import, which binds everything that the import was made of.

use crate::dataset::ObjectRole;
use crate::lineage::json::{among, copied, identical, member, set_member, Json};
use crate::lineage::root::{provenance, provenance_of, Provenance};
use crate::table::Table;
use crate::text::{decimal, decimal_text};
use vstd::prelude::*;
use vstd::string::*;

verus! {

/// The record of an object, and how it is written.
#[derive(Debug)]
pub struct Written {
    pub role: ObjectRole,
    pub path: String,
    pub value: Json,
}

/// An object that an import was made of.
#[derive(Debug)]
pub struct Original {
    pub object: Written,
    /// The bytes of an object of the provenance.
    pub content: Vec<u8>,
    /// The rows of a table of gaps.
    pub gaps: u64,
    /// The entry of the instrument in the record of a shared collection.
    pub entry: Option<Json>,
}

impl Original {
    /// What is kept of an object of the provenance.
    pub open spec fn kept(self) -> Provenance {
        provenance_of(self.object.path@, self.entry is Some, self.gaps)
    }

    /// Whether the document has an entry for what is kept of the object.
    pub open spec fn is_kept(self) -> bool {
        self.object.role is Provenance && !(self.kept() is Framed)
    }
}

/// Whether a value is a number.
pub open spec fn is_number(value: Option<Json>, number: nat) -> bool {
    value matches Some(Json::Number(text)) && text@ == decimal(number)
}

/// Whether a value is a text.
pub open spec fn is_words(value: Option<Json>, words: Seq<char>) -> bool {
    value matches Some(Json::Text(text)) && text@ == words
}

/// Whether a value is another, or a copy of it.
pub open spec fn is_copy(value: Option<Json>, of: Json) -> bool {
    value matches Some(value) && identical(value, of)
}

/// Whether a value lists bytes by their numbers.
pub open spec fn lists_bytes(value: Option<Json>, bytes: Seq<u8>) -> bool {
    value matches Some(Json::Array(values)) && {
        &&& values@.len() == bytes.len()
        &&& forall|i: int|
            0 <= i < bytes.len() ==> is_number(Some(#[trigger] values@[i]), bytes[i] as nat)
    }
}

/// Whether a value has two members and no other.
pub open spec fn has_two(value: Json, a: Seq<char>, b: Seq<char>) -> bool {
    value is Object && forall|name: Seq<char>| #[trigger]
        member(value, name) is Some ==> name == a || name == b
}

/// Whether an entry lists an original object, with the rows that a source has.
pub open spec fn lists_original(
    entry: Json,
    original: Original,
    source_rows: Map<Seq<char>, u64>,
) -> bool {
    &&& has_two(entry, "object"@, "rows"@)
    &&& is_copy(member(entry, "object"@), original.object.value)
    &&& if source_rows.dom().contains(original.object.path@) {
        is_number(member(entry, "rows"@), source_rows[original.object.path@] as nat)
    } else {
        member(entry, "rows"@) == Some(Json::Null)
    }
}

/// Whether an entry keeps what is to be kept of an object of the provenance: the instrument's
/// entry, its bytes, or that it was there.
pub open spec fn keeps(entry: Json, original: Original) -> bool {
    &&& is_copy(member(entry, "object"@), original.object.value)
    &&& match original.kept() {
        Provenance::InstrumentEntry => {
            &&& has_two(entry, "object"@, "instrument_entry"@)
            &&& is_copy(member(entry, "instrument_entry"@), original.entry->0)
        },
        Provenance::Marker => {
            &&& has_two(entry, "object"@, "bytes_verbatim"@)
            &&& member(entry, "bytes_verbatim"@) == Some(Json::Null)
        },
        Provenance::Verbatim => {
            &&& has_two(entry, "object"@, "bytes_verbatim"@)
            &&& lists_bytes(member(entry, "bytes_verbatim"@), original.content@)
        },
        Provenance::Framed => false,
    }
}

/// The places of the first `count` objects of which something is kept.
pub open spec fn kept_places(originals: Seq<Original>, count: nat) -> Seq<int>
    decreases count,
{
    if count == 0 {
        Seq::empty()
    } else {
        let before = kept_places(originals, (count - 1) as nat);
        if originals[count - 1].is_kept() {
            before.push(count - 1)
        } else {
            before
        }
    }
}

/// The places of the first `count` objects that hold normalized rows.
pub open spec fn normalized_places(objects: Seq<Written>, count: nat) -> Seq<int>
    decreases count,
{
    if count == 0 {
        Seq::empty()
    } else {
        let before = normalized_places(objects, (count - 1) as nat);
        if objects[count - 1].role is Normalized {
            before.push(count - 1)
        } else {
            before
        }
    }
}

/// Whether a value lists every original object, in order.
pub open spec fn lists_originals(
    value: Option<Json>,
    originals: Seq<Original>,
    source_rows: Map<Seq<char>, u64>,
) -> bool {
    value matches Some(Json::Array(entries)) && {
        &&& entries@.len() == originals.len()
        &&& forall|i: int|
            0 <= i < originals.len() ==> lists_original(
                #[trigger] entries@[i],
                originals[i],
                source_rows,
            )
    }
}

/// Whether a value keeps the provenance, in order.
pub open spec fn keeps_provenance(value: Option<Json>, originals: Seq<Original>) -> bool {
    let places = kept_places(originals, originals.len());
    value matches Some(Json::Array(entries)) && {
        &&& entries@.len() == places.len()
        &&& forall|i: int|
            0 <= i < places.len() ==> keeps(#[trigger] entries@[i], originals[places[i]])
    }
}

/// Whether a value lists the objects with normalized rows, in order.
pub open spec fn lists_normalized(value: Option<Json>, objects: Seq<Written>) -> bool {
    let places = normalized_places(objects, objects.len());
    value matches Some(Json::Array(entries)) && {
        &&& entries@.len() == places.len()
        &&& forall|i: int|
            0 <= i < places.len() ==> identical(
                #[trigger] entries@[i],
                objects[places[i]].value,
            )
    }
}

/// Whether a value says what was proved of an import.
pub open spec fn says_proofs(value: Option<Json>, rows: u64) -> bool {
    value matches Some(proofs) && {
        &&& is_number(member(proofs, "observation_rows"@), rows as nat)
        &&& is_words(
            member(proofs, "source_validation"@),
            "ordered rows and provider columns"@,
        )
        &&& is_words(
            member(proofs, "ndjson_reconstruction"@),
            "sha256 and byte count verified"@,
        )
        &&& forall|name: Seq<char>| #[trigger]
            member(proofs, name) is Some ==> name == "observation_rows"@ || name
                == "source_validation"@ || name == "ndjson_reconstruction"@
    }
}

/// Whether a name is one of the document's own.
pub open spec fn is_document_name(name: Seq<char>) -> bool {
    ||| name == "schema_version"@
    ||| name == "kind"@
    ||| name == "replaced_generations"@
    ||| name == "original_objects"@
    ||| name == "provenance"@
    ||| name == "framing"@
    ||| name == "observation_objects"@
    ||| name == "proofs"@
}

/// Whether a document is the lineage of an import.
pub open spec fn is_import_lineage(
    document: Json,
    originals: Seq<Original>,
    source_rows: Map<Seq<char>, u64>,
    framing: Json,
    objects: Seq<Written>,
    rows: u64,
) -> bool {
    &&& document is Object
    &&& is_number(member(document, "schema_version"@), 1)
    &&& is_words(member(document, "kind"@), "import"@)
    &&& member(document, "replaced_generations"@) matches Some(Json::Array(replaced))
        && replaced@.len() == 0
    &&& lists_originals(member(document, "original_objects"@), originals, source_rows)
    &&& keeps_provenance(member(document, "provenance"@), originals)
    &&& member(document, "framing"@) == Some(framing)
    &&& lists_normalized(member(document, "observation_objects"@), objects)
    &&& says_proofs(member(document, "proofs"@), rows)
    &&& forall|name: Seq<char>| #[trigger]
        member(document, name) is Some ==> is_document_name(name)
}

fn number(value: u64) -> (json: Json)
    ensures
        is_number(Some(json), value as nat),
{
    Json::Number(decimal_text(value))
}

fn byte_list(bytes: &Vec<u8>) -> (json: Json)
    ensures
        lists_bytes(Some(json), bytes@),
{
    let mut values: Vec<Json> = Vec::new();
    let mut i: usize = 0;
    while i < bytes.len()
        invariant
            i <= bytes@.len(),
            values@.len() == i,
            forall|j: int| 0 <= j < i ==> is_number(Some(#[trigger] values@[j]), bytes@[j] as nat),
        decreases bytes@.len() - i,
    {
        values.push(number(bytes[i] as u64));
        i = i + 1;
    }
    Json::Array(values)
}

fn pair(a: &str, first: Json, b: &str, second: Json) -> (json: Json)
    requires
        a@ != b@,
    ensures
        has_two(json, a@, b@),
        member(json, a@) == Some(first),
        member(json, b@) == Some(second),
{
    let mut members: Vec<(String, Json)> = Vec::new();
    set_member(&mut members, a, first);
    set_member(&mut members, b, second);
    let json = Json::Object(members);
    proof {
        assert forall|name: Seq<char>| #[trigger] member(json, name) == among(members@, name) by {}
    }
    json
}

fn original_entry(original: &Original, source_rows: &Table<u64>) -> (entry: Json)
    ensures
        lists_original(entry, *original, source_rows@),
{
    let rows = match source_rows.get(original.object.path.as_str()) {
        Some(rows) => number(*rows),
        None => Json::Null,
    };
    proof {
        reveal_strlit("object");
        reveal_strlit("rows");
        assert("object"@.len() != "rows"@.len());
    }
    pair("object", copied(&original.object.value), "rows", rows)
}

/// The entry for what is kept of an object of the provenance, if anything is.
pub fn provenance_entry(original: &Original) -> (entry: Option<Json>)
    ensures
        match entry {
            Some(entry) => original.is_kept() && keeps(entry, *original),
            None => !original.is_kept(),
        },
{
    if original.object.role != ObjectRole::Provenance {
        return None;
    }
    proof {
        reveal_strlit("object");
        reveal_strlit("instrument_entry");
        reveal_strlit("bytes_verbatim");
        assert("object"@.len() == 6 && "instrument_entry"@.len() == 16 && "bytes_verbatim"@.len()
            == 14);
    }
    let kept = provenance(
        original.object.path.as_str(),
        original.entry.is_some(),
        original.gaps,
    );
    let object = copied(&original.object.value);
    match kept {
        Provenance::Framed => None,
        Provenance::InstrumentEntry => match &original.entry {
            Some(entry) => Some(pair("object", object, "instrument_entry", copied(entry))),
            None => None,
        },
        Provenance::Marker => Some(pair("object", object, "bytes_verbatim", Json::Null)),
        Provenance::Verbatim => Some(
            pair("object", object, "bytes_verbatim", byte_list(&original.content)),
        ),
    }
}

fn original_list(originals: &Vec<Original>, source_rows: &Table<u64>) -> (list: Json)
    ensures
        lists_originals(Some(list), originals@, source_rows@),
{
    let mut entries: Vec<Json> = Vec::new();
    let mut i: usize = 0;
    while i < originals.len()
        invariant
            i <= originals@.len(),
            entries@.len() == i,
            forall|j: int|
                0 <= j < i ==> lists_original(
                    #[trigger] entries@[j],
                    originals@[j],
                    source_rows@,
                ),
        decreases originals@.len() - i,
    {
        entries.push(original_entry(&originals[i], source_rows));
        i = i + 1;
    }
    Json::Array(entries)
}

fn provenance_list(originals: &Vec<Original>) -> (list: Json)
    ensures
        keeps_provenance(Some(list), originals@),
{
    let mut entries: Vec<Json> = Vec::new();
    let mut i: usize = 0;
    while i < originals.len()
        invariant
            i <= originals@.len(),
            entries@.len() == kept_places(originals@, i as nat).len(),
            forall|j: int|
                0 <= j < entries@.len() ==> keeps(
                    #[trigger] entries@[j],
                    originals@[kept_places(originals@, i as nat)[j]],
                ),
        decreases originals@.len() - i,
    {
        if let Some(entry) = provenance_entry(&originals[i]) {
            entries.push(entry);
        }
        i = i + 1;
    }
    Json::Array(entries)
}

fn normalized_list(objects: &Vec<Written>) -> (list: Json)
    ensures
        lists_normalized(Some(list), objects@),
{
    let mut entries: Vec<Json> = Vec::new();
    let mut i: usize = 0;
    while i < objects.len()
        invariant
            i <= objects@.len(),
            entries@.len() == normalized_places(objects@, i as nat).len(),
            forall|j: int|
                0 <= j < entries@.len() ==> identical(
                    #[trigger] entries@[j],
                    objects@[normalized_places(objects@, i as nat)[j]].value,
                ),
        decreases objects@.len() - i,
    {
        if objects[i].role == ObjectRole::Normalized {
            entries.push(copied(&objects[i].value));
        }
        i = i + 1;
    }
    Json::Array(entries)
}

fn proof_list(rows: u64) -> (list: Json)
    ensures
        says_proofs(Some(list), rows),
{
    let mut members: Vec<(String, Json)> = Vec::new();
    set_member(&mut members, "observation_rows", number(rows));
    set_member(
        &mut members,
        "source_validation",
        Json::Text("ordered rows and provider columns".to_owned()),
    );
    set_member(
        &mut members,
        "ndjson_reconstruction",
        Json::Text("sha256 and byte count verified".to_owned()),
    );
    let list = Json::Object(members);
    proof {
        reveal_strlit("observation_rows");
        reveal_strlit("source_validation");
        reveal_strlit("ndjson_reconstruction");
        assert("observation_rows"@.len() == 16 && "source_validation"@.len() == 17
            && "ndjson_reconstruction"@.len() == 21);
        assert forall|name: Seq<char>| #[trigger] member(list, name) == among(members@, name) by {}
    }
    list
}

/// The lineage document of an import: every object that it was made of with the rows of each
/// source, what is kept of its provenance, the framing of its pages, the objects with its
/// normalized rows, and what was proved of them.
pub fn import_lineage(
    originals: &Vec<Original>,
    source_rows: &Table<u64>,
    framing: Json,
    objects: &Vec<Written>,
    rows: u64,
) -> (document: Json)
    ensures
        is_import_lineage(document, originals@, source_rows@, framing, objects@, rows),
{
    let mut members: Vec<(String, Json)> = Vec::new();
    set_member(&mut members, "schema_version", number(1));
    set_member(&mut members, "kind", Json::Text("import".to_owned()));
    set_member(&mut members, "replaced_generations", Json::Array(Vec::new()));
    set_member(&mut members, "original_objects", original_list(originals, source_rows));
    set_member(&mut members, "provenance", provenance_list(originals));
    set_member(&mut members, "framing", framing);
    set_member(&mut members, "observation_objects", normalized_list(objects));
    set_member(&mut members, "proofs", proof_list(rows));
    let document = Json::Object(members);
    proof {
        reveal_strlit("schema_version");
        reveal_strlit("kind");
        reveal_strlit("replaced_generations");
        reveal_strlit("original_objects");
        reveal_strlit("provenance");
        reveal_strlit("framing");
        reveal_strlit("observation_objects");
        reveal_strlit("proofs");
        assert("schema_version"@.len() == 14 && "kind"@.len() == 4 && "replaced_generations"@.len()
            == 20 && "original_objects"@.len() == 16 && "provenance"@.len() == 10
            && "framing"@.len() == 7 && "observation_objects"@.len() == 19 && "proofs"@.len() == 6);
        assert forall|name: Seq<char>| #[trigger]
            member(document, name) == among(members@, name) by {}
    }
    document
}

/// Where what is kept of an object stands.
proof fn place_among_kept(originals: Seq<Original>, count: nat, i: int) -> (k: int)
    requires
        0 <= i < count <= originals.len(),
        originals[i].is_kept(),
    ensures
        0 <= k < kept_places(originals, count).len(),
        kept_places(originals, count)[k] == i,
    decreases count,
{
    if i == count - 1 {
        kept_places(originals, count).len() - 1
    } else {
        place_among_kept(originals, (count - 1) as nat, i)
    }
}

/// Nothing that an import was made of is lost: its lineage lists every object, and holds the bytes
/// of each object of the provenance that neither its pages nor a marker stand for.
pub proof fn no_original_is_lost(
    document: Json,
    originals: Seq<Original>,
    source_rows: Map<Seq<char>, u64>,
    framing: Json,
    objects: Seq<Written>,
    rows: u64,
    i: int,
)
    requires
        is_import_lineage(document, originals, source_rows, framing, objects, rows),
        0 <= i < originals.len(),
    ensures
        member(document, "original_objects"@) matches Some(Json::Array(entries)) && is_copy(
            member(entries@[i], "object"@),
            originals[i].object.value,
        ),
        originals[i].object.role is Provenance && originals[i].kept() is Verbatim ==> (member(
            document,
            "provenance"@,
        ) matches Some(Json::Array(entries)) && exists|k: int|
            0 <= k < entries@.len() && is_copy(
                member(#[trigger] entries@[k], "object"@),
                originals[i].object.value,
            ) && lists_bytes(member(entries@[k], "bytes_verbatim"@), originals[i].content@)),
{
    let listed = member(document, "original_objects"@)->0->Array_0;
    assert(lists_original(listed@[i], originals[i], source_rows));
    if originals[i].object.role is Provenance && originals[i].kept() is Verbatim {
        let k = place_among_kept(originals, originals.len(), i);
        let entries = member(document, "provenance"@)->0->Array_0;
        assert(keeps(entries@[k], originals[i]));
    }
}

} // verus!
