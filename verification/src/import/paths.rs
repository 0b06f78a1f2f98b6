//! Where declared files may lie, and what their objects are called.

use crate::digest::{hex_digit, hex_digit_text};
use crate::text::{join, join3, join4, refusal, same_text, views};
use vstd::prelude::*;
use vstd::string::*;

verus! {

/// A path with every symbolic link resolved: its components, and how it is printed.
#[derive(Debug)]
pub struct ResolvedPath {
    pub parts: Vec<String>,
    pub shown: String,
}

impl ResolvedPath {
    /// The components of the path.
    pub open spec fn view(&self) -> Seq<Seq<char>> {
        views(self.parts@)
    }
}

/// Whether a path is a directory or lies beneath it.
pub open spec fn beneath(path: Seq<Seq<char>>, dir: Seq<Seq<char>>) -> bool {
    dir.len() <= path.len() && path.take(dir.len() as int) == dir
}

/// Whether a path is a directory or lies beneath it.
pub fn lies_beneath(path: &ResolvedPath, dir: &ResolvedPath) -> (inside: bool)
    ensures
        inside == beneath(path@, dir@),
{
    if dir.parts.len() > path.parts.len() {
        return false;
    }
    let mut i: usize = 0;
    while i < dir.parts.len()
        invariant
            i <= dir.parts@.len(),
            dir.parts@.len() <= path.parts@.len(),
            forall|j: int| 0 <= j < i ==> path@[j] == #[trigger] dir@[j],
        decreases dir.parts@.len() - i,
    {
        if !same_text(path.parts[i].as_str(), dir.parts[i].as_str()) {
            assert(path@.take(dir@.len() as int)[i as int] != dir@[i as int]);
            return false;
        }
        assert(path@[i as int] == dir@[i as int]);
        i = i + 1;
    }
    assert(path@.take(dir@.len() as int) =~= dir@);
    true
}

/// Whether a path lies beneath one of some directories.
pub open spec fn beneath_any(path: Seq<Seq<char>>, dirs: Seq<ResolvedPath>) -> bool {
    exists|i: int| 0 <= i < dirs.len() && beneath(path, (#[trigger] dirs[i])@)
}

fn lies_beneath_any(path: &ResolvedPath, dirs: &Vec<ResolvedPath>) -> (inside: bool)
    ensures
        inside == beneath_any(path@, dirs@),
{
    let mut i: usize = 0;
    while i < dirs.len()
        invariant
            i <= dirs@.len(),
            forall|j: int| 0 <= j < i ==> !beneath(path@, (#[trigger] dirs@[j])@),
        decreases dirs@.len() - i,
    {
        if lies_beneath(path, &dirs[i]) {
            assert(beneath(path@, dirs@[i as int]@));
            return true;
        }
        i = i + 1;
    }
    false
}

/// Whether a directory holds one of some directories, or lies beneath one.
pub open spec fn overlaps_any(path: Seq<Seq<char>>, dirs: Seq<ResolvedPath>) -> bool {
    exists|i: int|
        0 <= i < dirs.len() && (beneath((#[trigger] dirs[i])@, path) || beneath(path, dirs[i]@))
}

fn overlaps_one(path: &ResolvedPath, dirs: &Vec<ResolvedPath>) -> (overlapping: bool)
    ensures
        overlapping == overlaps_any(path@, dirs@),
{
    let mut i: usize = 0;
    while i < dirs.len()
        invariant
            i <= dirs@.len(),
            forall|j: int|
                0 <= j < i ==> !(beneath((#[trigger] dirs@[j])@, path@) || beneath(
                    path@,
                    dirs@[j]@,
                )),
        decreases dirs@.len() - i,
    {
        if lies_beneath(&dirs[i], path) || lies_beneath(path, &dirs[i]) {
            assert(beneath(dirs@[i as int]@, path@) || beneath(path@, dirs@[i as int]@));
            return true;
        }
        i = i + 1;
    }
    false
}

/// Whether a path is one of some paths.
pub open spec fn listed_among(path: Seq<Seq<char>>, paths: Seq<ResolvedPath>) -> bool {
    exists|i: int| 0 <= i < paths.len() && (#[trigger] paths[i])@ == path
}

fn is_listed(path: &ResolvedPath, paths: &Vec<ResolvedPath>) -> (listed: bool)
    ensures
        listed == listed_among(path@, paths@),
{
    let mut i: usize = 0;
    while i < paths.len()
        invariant
            i <= paths@.len(),
            forall|j: int| 0 <= j < i ==> (#[trigger] paths@[j])@ != path@,
        decreases paths@.len() - i,
    {
        if path.parts.len() == paths[i].parts.len() && lies_beneath(path, &paths[i]) {
            assert(path@.take(path@.len() as int) =~= path@);
            assert(paths@[i as int]@ == path@);
            return true;
        }
        assert(paths@[i as int]@ == path@ ==> paths@[i as int]@.len() == path@.len());
        assert(path@.take(path@.len() as int) =~= path@);
        i = i + 1;
    }
    false
}

/// Why a source is refused: it was declared before, or it lies where the import writes.
pub open spec fn wrong_root(
    root: ResolvedPath,
    roots: Seq<ResolvedPath>,
    protected: Seq<ResolvedPath>,
) -> Option<Seq<char>> {
    if listed_among(root@, roots) {
        Some("source "@ + root.shown@ + " is declared twice"@)
    } else if beneath_any(root@, protected) {
        Some(
            "source "@ + root.shown@
                + " lies inside the historical-data folder or the file destination"@,
        )
    } else {
        None
    }
}

/// Checks a declared source against those before it and against where the import writes.
pub fn check_root(
    root: &ResolvedPath,
    roots: &Vec<ResolvedPath>,
    protected: &Vec<ResolvedPath>,
) -> (result: Result<(), String>)
    ensures
        refusal(result) == wrong_root(*root, roots@, protected@),
{
    if is_listed(root, roots) {
        return Err(join3("source ", root.shown.as_str(), " is declared twice"));
    }
    if lies_beneath_any(root, protected) {
        return Err(
            join3(
                "source ",
                root.shown.as_str(),
                " lies inside the historical-data folder or the file destination",
            ),
        );
    }
    Ok(())
}

/// Why a declared directory is refused.
pub open spec fn wrong_dir(
    relative: Seq<char>,
    absolute: ResolvedPath,
    root: ResolvedPath,
    protected: Seq<ResolvedPath>,
) -> Option<Seq<char>> {
    if !beneath(absolute@, root@) {
        Some(
            relative + " resolves to "@ + absolute.shown@ + ", outside the root "@ + root.shown@,
        )
    } else if overlaps_any(absolute@, protected) {
        Some(
            relative + " resolves to "@ + absolute.shown@
                + ", which overlaps the historical-data folder or the file destination"@,
        )
    } else {
        None
    }
}

/// A declared directory must lie beneath the root, and neither hold nor lie inside a
/// destination.
pub fn contained_dir(
    relative: &str,
    absolute: &ResolvedPath,
    root: &ResolvedPath,
    protected: &Vec<ResolvedPath>,
) -> (result: Result<(), String>)
    ensures
        refusal(result) == wrong_dir(relative@, *absolute, *root, protected@),
{
    if !lies_beneath(absolute, root) {
        let mut message = join4(
            relative,
            " resolves to ",
            absolute.shown.as_str(),
            ", outside the root ",
        );
        message.append(root.shown.as_str());
        return Err(message);
    }
    if overlaps_one(absolute, protected) {
        return Err(
            join4(
                relative,
                " resolves to ",
                absolute.shown.as_str(),
                ", which overlaps the historical-data folder or the file destination",
            ),
        );
    }
    Ok(())
}

/// Why a declared file is refused.
pub open spec fn wrong_file(
    relative: Seq<char>,
    absolute: ResolvedPath,
    root: ResolvedPath,
    protected: Seq<ResolvedPath>,
) -> Option<Seq<char>> {
    if !beneath(absolute@, root@) {
        Some(
            relative + " resolves to "@ + absolute.shown@ + ", outside the collection root "@
                + root.shown@,
        )
    } else if beneath_any(absolute@, protected) {
        Some(
            relative + " resolves to "@ + absolute.shown@
                + ", inside the historical-data folder or the file destination"@,
        )
    } else {
        None
    }
}

/// A declared file must lie beneath the collection's root and outside both destinations.
pub fn contained_file(
    relative: &str,
    absolute: &ResolvedPath,
    root: &ResolvedPath,
    protected: &Vec<ResolvedPath>,
) -> (result: Result<(), String>)
    ensures
        refusal(result) == wrong_file(relative@, *absolute, *root, protected@),
{
    if !lies_beneath(absolute, root) {
        let mut message = join4(
            relative,
            " resolves to ",
            absolute.shown.as_str(),
            ", outside the collection root ",
        );
        message.append(root.shown.as_str());
        return Err(message);
    }
    if lies_beneath_any(absolute, protected) {
        return Err(
            join4(
                relative,
                " resolves to ",
                absolute.shown.as_str(),
                ", inside the historical-data folder or the file destination",
            ),
        );
    }
    Ok(())
}

/// What a path leads to, links not followed.
#[derive(Debug, Clone, Copy, PartialEq, Eq, Structural)]
pub enum FileKind {
    Link,
    Directory,
    Regular,
    Other,
}

/// The message of a link among declared files.
pub open spec fn link_message(path: Seq<char>) -> Seq<char> {
    path + " is a symbolic link; declared inventories contain only regular files"@
}

/// A declared file must be a regular file, never a link into an undeclared location.
pub fn regular_file(path: &str, kind: FileKind) -> (result: Result<(), String>)
    ensures
        refusal(result) == (match kind {
            FileKind::Regular => None,
            FileKind::Link => Some(link_message(path@)),
            _ => Some(path@ + " is not a regular file"@),
        }),
{
    match kind {
        FileKind::Regular => Ok(()),
        FileKind::Link => Err(
            join(path, " is a symbolic link; declared inventories contain only regular files"),
        ),
        _ => Err(join(path, " is not a regular file")),
    }
}

/// What a walk does with an entry.
#[derive(Debug, Clone, Copy, PartialEq, Eq, Structural)]
pub enum Visit {
    Descend,
    Keep,
    Skip,
}

/// Decides what a walk does with an entry: links are refused, so that nothing outside the
/// declared root is ever opened.
pub fn visit(path: &str, kind: FileKind) -> (result: Result<Visit, String>)
    ensures
        refusal(result) == (if kind is Link {
            Some(link_message(path@))
        } else {
            None
        }),
        result matches Ok(visit) ==> visit == (match kind {
            FileKind::Directory => Visit::Descend,
            FileKind::Regular => Visit::Keep,
            _ => Visit::Skip,
        }),
{
    match kind {
        FileKind::Link => Err(
            join(path, " is a symbolic link; declared inventories contain only regular files"),
        ),
        FileKind::Directory => Ok(Visit::Descend),
        FileKind::Regular => Ok(Visit::Keep),
        FileKind::Other => Ok(Visit::Skip),
    }
}

/// The path of a dataset beneath the root of its asset.
pub fn dataset_prefix(dataset: &ResolvedPath, asset: &ResolvedPath) -> (result: Result<
    Vec<String>,
    String,
>)
    ensures
        refusal(result) == (if beneath(dataset@, asset@) {
            None
        } else {
            Some(
                "dataset root "@ + dataset.shown@ + " is outside its asset root "@
                    + asset.shown@,
            )
        }),
        result matches Ok(prefix) ==> asset@ + views(prefix@) == dataset@,
{
    if !lies_beneath(dataset, asset) {
        return Err(
            join4(
                "dataset root ",
                dataset.shown.as_str(),
                " is outside its asset root ",
                asset.shown.as_str(),
            ),
        );
    }
    let mut prefix: Vec<String> = Vec::new();
    let mut i: usize = asset.parts.len();
    while i < dataset.parts.len()
        invariant
            asset.parts@.len() <= i <= dataset.parts@.len(),
            views(prefix@) == dataset@.subrange(asset.parts@.len() as int, i as int),
        decreases dataset.parts@.len() - i,
    {
        let ghost before = prefix@;
        prefix.push(dataset.parts[i].clone());
        assert(views(prefix@) =~= views(before).push(dataset@[i as int]));
        i = i + 1;
        assert(views(prefix@) =~= dataset@.subrange(asset.parts@.len() as int, i as int));
    }
    proof {
        assert(dataset@.take(asset@.len() as int) == asset@);
        assert(asset@ + views(prefix@) =~= dataset@);
    }
    Ok(prefix)
}

/// An import needs something to import.
pub fn check_sources(count: usize) -> (result: Result<(), String>)
    ensures
        refusal(result) == (if count == 0 {
            Some("import.sources must declare at least one entry"@)
        } else {
            None
        }),
{
    if count == 0 {
        return Err("import.sources must declare at least one entry".to_owned());
    }
    Ok(())
}

/// Everything beneath an accepted directory lies beneath the root and outside every place that
/// the import writes to.
pub proof fn an_accepted_directory_is_apart(
    relative: Seq<char>,
    absolute: ResolvedPath,
    root: ResolvedPath,
    protected: Seq<ResolvedPath>,
    path: Seq<Seq<char>>,
)
    requires
        wrong_dir(relative, absolute, root, protected) is None,
        beneath(path, absolute@),
    ensures
        beneath(path, root@),
        !beneath_any(path, protected),
{
    let dir = absolute@;
    assert(path.take(root@.len() as int) =~= dir.take(root@.len() as int));
    assert forall|i: int| 0 <= i < protected.len() implies !beneath(
        path,
        (#[trigger] protected[i])@,
    ) by {
        let place = protected[i]@;
        if beneath(path, place) {
            if place.len() <= dir.len() {
                assert(dir.take(place.len() as int) =~= path.take(place.len() as int));
                assert(beneath(dir, place));
            } else {
                assert(place.take(dir.len() as int) =~= path.take(dir.len() as int));
                assert(beneath(place, dir));
            }
        }
    }
}

/// Whether a character is a control character of ASCII.
pub open spec fn is_control(c: char) -> bool {
    (c as u32) < 32 || (c as u32) == 127
}

/// The shortest numeral of a number in base sixteen.
pub open spec fn hex_numeral(value: nat) -> Seq<char>
    decreases value,
{
    if value < 16 {
        seq![hex_digit(value as int)]
    } else {
        hex_numeral(value / 16).push(hex_digit((value % 16) as int))
    }
}

/// A character as it is printed between quotes.
pub open spec fn escaped_char(c: char) -> Seq<char> {
    if c == '\t' {
        seq!['\\', 't']
    } else if c == '\r' {
        seq!['\\', 'r']
    } else if c == '\n' {
        seq!['\\', 'n']
    } else if c == '\'' || c == '"' || c == '\\' {
        seq!['\\', c]
    } else if 0x20 <= c as u32 && c as u32 <= 0x7e {
        seq![c]
    } else {
        seq!['\\', 'u', '{'] + hex_numeral(c as nat) + seq!['}']
    }
}

/// A text as it is printed between quotes.
pub open spec fn escaped(text: Seq<char>) -> Seq<char>
    decreases text.len(),
{
    if text.len() == 0 {
        Seq::empty()
    } else {
        escaped(text.drop_last()) + escaped_char(text.last())
    }
}

fn push_hex(out: &mut String, value: u32)
    ensures
        final(out)@ == old(out)@ + hex_numeral(value as nat),
    decreases value,
{
    let ghost before = out@;
    if value >= 16 {
        push_hex(out, value / 16);
    }
    out.append(hex_digit_text((value % 16) as u8));
    assert(out@ =~= before + hex_numeral(value as nat));
}

fn push_escaped(out: &mut String, text: &str, at: usize)
    requires
        at < text@.len(),
    ensures
        final(out)@ == old(out)@ + escaped_char(text@[at as int]),
{
    let ghost before = out@;
    proof {
        reveal_strlit("\\t");
        reveal_strlit("\\r");
        reveal_strlit("\\n");
        reveal_strlit("\\");
        reveal_strlit("\\u{");
        reveal_strlit("}");
    }
    let length: usize = text.unicode_len();
    assert(at + 1 <= length);
    let c: char = text.get_char(at);
    if c == '\t' {
        out.append("\\t");
    } else if c == '\r' {
        out.append("\\r");
    } else if c == '\n' {
        out.append("\\n");
    } else if c == '\'' || c == '"' || c == '\\' {
        out.append("\\");
        out.append(text.substring_char(at, at + 1));
    } else if 0x20 <= c as u32 && c as u32 <= 0x7e {
        out.append(text.substring_char(at, at + 1));
    } else {
        out.append("\\u{");
        push_hex(out, c as u32);
        out.append("}");
    }
    assert(out@ =~= before + escaped_char(c));
}

fn escape(text: &str) -> (shown: String)
    ensures
        shown@ == escaped(text@),
{
    let mut out = String::new();
    let length: usize = text.unicode_len();
    let mut i: usize = 0;
    assert(text@.take(0) =~= Seq::empty());
    while i < length
        invariant
            i <= length,
            length == text@.len(),
            out@ == escaped(text@.take(i as int)),
        decreases length - i,
    {
        assert(text@.take(i + 1).drop_last() =~= text@.take(i as int));
        push_escaped(&mut out, text, i);
        i = i + 1;
    }
    assert(text@.take(i as int) =~= text@);
    out
}

/// Whether a text holds a control character.
pub open spec fn holds_control(text: Seq<char>) -> bool {
    exists|i: int| 0 <= i < text.len() && is_control(#[trigger] text[i])
}

/// An object path is free of control characters, so that the lines of manifests stay
/// unambiguous.
pub fn object_path(path: &str) -> (result: Result<String, String>)
    ensures
        refusal(result) == if holds_control(path@) {
            Some("object path `"@ + escaped(path@) + "` contains a control character"@)
        } else {
            None
        },
        result matches Ok(text) ==> text@ == path@,
{
    let length: usize = path.unicode_len();
    let mut i: usize = 0;
    while i < length
        invariant
            i <= length,
            length == path@.len(),
            forall|j: int| 0 <= j < i ==> !is_control(#[trigger] path@[j]),
        decreases length - i,
    {
        let c: char = path.get_char(i);
        if (c as u32) < 32 || (c as u32) == 127 {
            assert(is_control(path@[i as int]));
            return Err(
                join3(
                    "object path `",
                    escape(path).as_str(),
                    "` contains a control character",
                ),
            );
        }
        i = i + 1;
    }
    Ok(path.to_owned())
}

} // verus!
