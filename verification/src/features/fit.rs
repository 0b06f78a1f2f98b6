//! What a build starts from, and the column that an encoding is fitted on.

use crate::dataset::{find_object, is_object, ObjectRecord};
use crate::features::generation::{mask_unready, paths_of, ready_at, same_object_set};
use crate::live::rows::{is_text, position, position_of, FeatureValue};
use crate::search::{first_where, first_where_absent, first_where_found, first_where_meets};
use crate::text::{join, join3, refusal, views};
use vstd::prelude::*;
use vstd::string::*;

verus! {

/// How the build of a resolved entry starts.
#[derive(Debug, Clone, Copy, PartialEq, Eq, Structural)]
pub enum BuildStart {
    /// Look at the generation that the frozen plan would publish.
    Frozen,
    /// Take the generation that the receipt of the same fit names.
    Receipt,
    /// Stream the input.
    Stream,
}

/// Decides how a build starts: a frozen plan is never fitted, and a fit is only looked up where
/// its revision can be reused and a receipt is there.
pub fn build_start(frozen: bool, reusable_revision: bool, receipt: bool) -> (start: BuildStart)
    ensures
        start == (if frozen {
            BuildStart::Frozen
        } else if reusable_revision && receipt {
            BuildStart::Receipt
        } else {
            BuildStart::Stream
        }),
{
    if frozen {
        BuildStart::Frozen
    } else if reusable_revision && receipt {
        BuildStart::Receipt
    } else {
        BuildStart::Stream
    }
}

/// The profile object of a stream manifest; `path` is where profiles stand.
pub fn profile_object<'a>(objects: &'a Vec<ObjectRecord>, path: &str) -> (found: Result<
    &'a ObjectRecord,
    String,
>)
    ensures
        match first_where(objects@, is_object(path@)) {
            Some(at) => found matches Ok(found) && *found == objects@[at],
            None => refusal(found) == Some("profile_manifest: no profile object"@),
        },
{
    match find_object(objects, path) {
        Some(at) => Ok(&objects[at]),
        None => Err("profile_manifest: no profile object".to_owned()),
    }
}

/// A new plan needs the profile that its input has: `same` says whether the profile that was
/// observed is the published one.
pub fn check_same_profile(frozen: bool, same: bool) -> (checked: Result<(), String>)
    ensures
        refusal(checked) == (if !frozen && !same {
            Some(
                "profile_manifest: the published profile is not the profile of this input under the recorded definition"@,
            )
        } else {
            None
        }),
{
    if !frozen && !same {
        return Err(
            "profile_manifest: the published profile is not the profile of this input under the recorded definition".to_owned(),
        );
    }
    Ok(())
}

/// The objects of a manifest must be those of its plan.
pub fn check_object_set(uri: &str, objects: &Vec<ObjectRecord>, expected: &Vec<String>) -> (checked:
    Result<(), String>)
    ensures
        refusal(checked) == (if paths_of(objects@).to_multiset() == views(
            expected@,
        ).to_multiset() {
            None
        } else {
            Some(uri@ + ": the manifest's objects are not the plan's object set"@)
        }),
{
    if !same_object_set(objects, expected) {
        return Err(join(uri, ": the manifest's objects are not the plan's object set"));
    }
    Ok(())
}

/// The table of a stream's rows: the names of its columns, and their values.
#[derive(Debug)]
pub struct RowTable {
    pub names: Vec<String>,
    pub columns: Vec<Vec<Option<FeatureValue>>>,
}

impl RowTable {
    /// Whether every column has a name, and all have the same length.
    pub open spec fn valid(&self) -> bool {
        &&& self.names@.len() == self.columns@.len()
        &&& forall|i: int, j: int|
            0 <= i < self.columns@.len() && 0 <= j < self.columns@.len() ==> (
            #[trigger] self.columns@[i])@.len() == (#[trigger] self.columns@[j])@.len()
    }
}

/// What an encoding takes from the rows.
#[derive(Debug)]
pub struct EncodingInput {
    pub input: String,
    /// Fitted on ready values only.
    pub automatic: bool,
    pub flags: Vec<String>,
    pub unready: Vec<String>,
}

/// The input column of an encoding.
pub fn input_column(names: &Vec<String>, input: &str) -> (found: Result<usize, String>)
    ensures
        match position_of(names@, input@) {
            Some(at) => found matches Ok(found) && found == at && found < names@.len(),
            None => refusal(found) == Some(
                "encoding input `"@ + input@ + "` is not a row column"@,
            ),
        },
{
    match position(names, input) {
        Some(at) => Ok(at),
        None => Err(join3("encoding input `", input, "` is not a row column")),
    }
}

/// The first flag that is not a column of the rows.
pub open spec fn unknown_flag(names: Seq<String>, flags: Seq<String>) -> Option<int> {
    first_where(flags, |flag: String| position_of(names, flag@) is None)
}

/// The columns of flags.
pub open spec fn flag_columns(table: RowTable, flags: Seq<String>) -> Seq<Seq<Option<FeatureValue>>> {
    flags.map_values(|flag: String| table.columns@[position_of(table.names@, flag@)->0]@)
}

fn copy_column(column: &Vec<Option<FeatureValue>>) -> (copy: Vec<Option<FeatureValue>>)
    ensures
        copy@ == column@,
{
    let mut copy: Vec<Option<FeatureValue>> = Vec::new();
    let mut i: usize = 0;
    while i < column.len()
        invariant
            i <= column@.len(),
            copy@ == column@.take(i as int),
        decreases column@.len() - i,
    {
        let value: Option<FeatureValue> = match &column[i] {
            Some(value) => Some(value.clone()),
            None => None,
        };
        copy.push(value);
        i = i + 1;
        assert(copy@ =~= column@.take(i as int));
    }
    assert(column@.take(i as int) =~= column@);
    copy
}

fn read_flags(table: &RowTable, flags: &Vec<String>) -> (found: Result<
    Vec<Vec<Option<FeatureValue>>>,
    String,
>)
    requires
        table.valid(),
    ensures
        match unknown_flag(table.names@, flags@) {
            Some(at) => refusal(found) == Some(
                "readiness flag `"@ + flags@[at]@ + "` is not a row column"@,
            ),
            None => found matches Ok(found) && found@.map_values(
                |column: Vec<Option<FeatureValue>>| column@,
            ) == flag_columns(*table, flags@) && forall|i: int, j: int|
                0 <= i < found@.len() && 0 <= j < table.columns@.len() ==> (
                #[trigger] found@[i])@.len() == (#[trigger] table.columns@[j])@.len(),
        },
{
    let ghost unknown = |flag: String| position_of(table.names@, flag@) is None;
    let mut found: Vec<Vec<Option<FeatureValue>>> = Vec::new();
    let mut i: usize = 0;
    while i < flags.len()
        invariant
            i <= flags@.len(),
            table.valid(),
            unknown == (|flag: String| position_of(table.names@, flag@) is None),
            forall|j: int| 0 <= j < i ==> !unknown(#[trigger] flags@[j]),
            found@.len() == i,
            forall|j: int|
                0 <= j < i ==> (#[trigger] found@[j])@ == flag_columns(*table, flags@)[j],
            forall|j: int, k: int|
                0 <= j < i && 0 <= k < table.columns@.len() ==> (#[trigger] found@[j])@.len() == (
                #[trigger] table.columns@[k])@.len(),
        decreases flags@.len() - i,
    {
        match position(&table.names, flags[i].as_str()) {
            Some(at) => {
                found.push(copy_column(&table.columns[at]));
            },
            None => {
                proof {
                    assert(unknown(flags@[i as int]));
                    first_where_found(flags@, unknown, i as int);
                }
                return Err(join3("readiness flag `", flags[i].as_str(), "` is not a row column"));
            },
        }
        i = i + 1;
    }
    proof {
        first_where_absent(flags@, unknown);
        assert(found@.map_values(|column: Vec<Option<FeatureValue>>| column@) =~= flag_columns(
            *table,
            flags@,
        ));
    }
    Ok(found)
}

/// Whether a row of a column is ready by its own value and by the flags of the row.
pub open spec fn is_ready(
    column: Seq<Option<FeatureValue>>,
    unready: Seq<String>,
    flags: Seq<Seq<Option<FeatureValue>>>,
    row: int,
) -> bool {
    &&& ready_at(column[row], unready, Seq::empty(), row)
    &&& forall|i: int|
        0 <= i < flags.len() ==> (#[trigger] flags[i])[row] == Some(FeatureValue::Bool(true))
}

/// The column that an encoding is fitted on: its input, for an automatic encoding without the
/// values that are not ready.
pub open spec fn fitted_column(table: RowTable, encoding: EncodingInput) -> Seq<
    Option<FeatureValue>,
> {
    let column = table.columns@[position_of(table.names@, encoding.input@)->0]@;
    if encoding.automatic {
        Seq::new(
            column.len(),
            |row: int|
                if is_ready(
                    column,
                    encoding.unready@,
                    flag_columns(table, encoding.flags@),
                    row,
                ) {
                    column[row]
                } else {
                    None
                },
        )
    } else {
        column
    }
}

/// Why an encoding cannot be fitted on the rows.
pub open spec fn fit_refusal(table: RowTable, encoding: EncodingInput) -> Option<Seq<char>> {
    if position_of(table.names@, encoding.input@) is None {
        Some("encoding input `"@ + encoding.input@ + "` is not a row column"@)
    } else if !encoding.automatic {
        None
    } else {
        match unknown_flag(table.names@, encoding.flags@) {
            Some(at) => Some(
                "readiness flag `"@ + encoding.flags@[at]@ + "` is not a row column"@,
            ),
            None => None,
        }
    }
}

/// The column that an encoding is fitted on.
pub fn fit_column(table: &RowTable, encoding: &EncodingInput) -> (column: Result<
    Vec<Option<FeatureValue>>,
    String,
>)
    requires
        table.valid(),
    ensures
        refusal(column) == fit_refusal(*table, *encoding),
        column matches Ok(column) ==> column@ == fitted_column(*table, *encoding),
{
    let at: usize = match input_column(&table.names, encoding.input.as_str()) {
        Ok(at) => at,
        Err(message) => {
            return Err(message);
        },
    };
    let mut column = copy_column(&table.columns[at]);
    if !encoding.automatic {
        return Ok(column);
    }
    let flags = match read_flags(table, &encoding.flags) {
        Ok(flags) => flags,
        Err(message) => {
            return Err(message);
        },
    };
    let ghost before = column@;
    mask_unready(&mut column, &encoding.unready, &flags);
    proof {
        let columns = flag_columns(*table, encoding.flags@);
        let shown = flags@.map_values(|column: Vec<Option<FeatureValue>>| column@);
        assert forall|row: int| 0 <= row < before.len() implies ready_at(
            before[row],
            encoding.unready@,
            flags@,
            row,
        ) == is_ready(before, encoding.unready@, columns, row) by {
            if ready_at(before[row], encoding.unready@, flags@, row) {
                assert forall|i: int| 0 <= i < columns.len() implies (#[trigger] columns[i])[row]
                    == Some(FeatureValue::Bool(true)) by {
                    assert(columns[i] == shown[i]);
                    assert(flags@[i]@[row] == Some(FeatureValue::Bool(true)));
                }
            }
            if is_ready(before, encoding.unready@, columns, row) {
                assert forall|i: int| 0 <= i < flags@.len() implies (#[trigger] flags@[i])@[row]
                    == Some(FeatureValue::Bool(true)) by {
                    assert(columns[i] == shown[i]);
                }
            }
        }
        assert(column@ =~= fitted_column(*table, *encoding));
    }
    Ok(column)
}

/// What is ready stays in the column that an encoding is fitted on, whatever its kind: a value of
/// the input column that is none of the unready texts, in a row where every readiness flag is
/// true. Nothing else stays where the encoding is automatic, every row keeps its place, and
/// another encoding takes the column as it is.
pub proof fn what_is_ready_is_fitted(
    table: RowTable,
    encoding: EncodingInput,
    column: Seq<Option<FeatureValue>>,
    input: int,
    row: int,
)
    requires
        column == fitted_column(table, encoding),
        fit_refusal(table, encoding) is None,
        0 <= input < table.names@.len(),
        table.names@[input]@ == encoding.input@,
        forall|i: int| 0 <= i < input ==> (#[trigger] table.names@[i])@ != encoding.input@,
        0 <= row < table.columns@[input]@.len(),
    ensures
        column.len() == table.columns@[input]@.len(),
        !encoding.automatic ==> column[row] == table.columns@[input]@[row],
        encoding.automatic ==> {
            let value = table.columns@[input]@[row];
            let says_unready = value matches Some(FeatureValue::Text(text)) && exists|i: int|
                0 <= i < encoding.unready@.len() && (#[trigger] encoding.unready@[i])@ == text@;
            let flagged = forall|i: int|
                0 <= i < encoding.flags@.len() ==> (exists|at: int|
                    0 <= at < table.names@.len() && (#[trigger] table.names@[at])@
                        == (#[trigger] encoding.flags@[i])@ && (forall|k: int|
                        0 <= k < at ==> (#[trigger] table.names@[k])@ != encoding.flags@[i]@)
                        && table.columns@[at]@[row] == Some(FeatureValue::Bool(true)));
            column[row] == (if !says_unready && flagged {
                value
            } else {
                None
            })
        },
{
    let named = is_text(encoding.input@);
    assert forall|i: int| 0 <= i < input implies !named(#[trigger] table.names@[i]) by {}
    first_where_found(table.names@, named, input);
    let value = table.columns@[input]@[row];
    if encoding.automatic {
        if let Some(FeatureValue::Text(text)) = value {
            let wanted = is_text(text@);
            first_where_meets(encoding.unready@, wanted);
            if let Some(at) = position_of(encoding.unready@, text@) {
                assert(wanted(encoding.unready@[at]));
                assert(encoding.unready@[at]@ == text@);
            } else {
                assert forall|i: int| 0 <= i < encoding.unready@.len() implies (
                #[trigger] encoding.unready@[i])@ != text@ by {
                    assert(!wanted(encoding.unready@[i]));
                }
            }
        }
        let columns = flag_columns(table, encoding.flags@);
        let unknown = |flag: String| position_of(table.names@, flag@) is None;
        first_where_meets(encoding.flags@, unknown);
        let flagged = forall|i: int|
            0 <= i < encoding.flags@.len() ==> (exists|at: int|
                0 <= at < table.names@.len() && (#[trigger] table.names@[at])@
                    == (#[trigger] encoding.flags@[i])@ && (forall|k: int|
                    0 <= k < at ==> (#[trigger] table.names@[k])@ != encoding.flags@[i]@)
                    && table.columns@[at]@[row] == Some(FeatureValue::Bool(true)));
        assert forall|i: int| 0 <= i < encoding.flags@.len() implies ((
        #[trigger] columns[i])[row] == Some(FeatureValue::Bool(true)) <==> (exists|at: int|
            0 <= at < table.names@.len() && (#[trigger] table.names@[at])@
                == encoding.flags@[i]@ && (forall|k: int|
                0 <= k < at ==> (#[trigger] table.names@[k])@ != encoding.flags@[i]@)
                && table.columns@[at]@[row] == Some(FeatureValue::Bool(true)))) by {
            assert(!unknown(encoding.flags@[i]));
            let wanted = is_text(encoding.flags@[i]@);
            first_where_meets(table.names@, wanted);
            let at = position_of(table.names@, encoding.flags@[i]@)->0;
            assert(wanted(table.names@[at]));
            assert forall|k: int| 0 <= k < at implies (#[trigger] table.names@[k])@
                != encoding.flags@[i]@ by {
                assert(!wanted(table.names@[k]));
            }
            assert(table.names@[at]@ == encoding.flags@[i]@);
        }
        assert(flagged <==> forall|i: int|
            0 <= i < columns.len() ==> (#[trigger] columns[i])[row] == Some(
                FeatureValue::Bool(true),
            )) by {
            if flagged {
                assert forall|i: int| 0 <= i < columns.len() implies (#[trigger] columns[i])[row]
                    == Some(FeatureValue::Bool(true)) by {
                    let flag = encoding.flags@[i];
                }
            } else {
                let i = choose|i: int|
                    0 <= i < encoding.flags@.len() && !(exists|at: int|
                        0 <= at < table.names@.len() && (#[trigger] table.names@[at])@
                            == (#[trigger] encoding.flags@[i])@ && (forall|k: int|
                            0 <= k < at ==> (#[trigger] table.names@[k])@
                                != encoding.flags@[i]@) && table.columns@[at]@[row] == Some(
                            FeatureValue::Bool(true),
                        ));
                let flags = columns[i];
            }
        }
    }
}

} // verus!
