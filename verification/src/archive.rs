//! What an update archive may unpack: entry names that stay inside the install
//! directory, the archive formats, and the check of a staged set before it is swapped in.
use vstd::prelude::*;

use crate::chars::{
    chars_less, chars_lt, chars_of, ends_with, ends_with_chars, in_set, lemma_split_on_no_sep, lower_all, split_chars,
    split_on, string_of, strings_view, to_ascii_lower,
};
use crate::update::UpdateError;

verus! {

/// A piece of an entry name that names no directory of its own: empty or `.`.
pub open spec fn skipped_part(part: Seq<char>) -> bool {
    part.len() == 0 || part == seq!['.']
}

/// A piece that would leave the archive root or name a drive or a device.
pub open spec fn refused_part(part: Seq<char>) -> bool {
    ||| part == seq!['.', '.']
    ||| part.contains(':')
    ||| part.contains('\0')
}

/// The pieces that are neither empty nor `.`, in order.
pub open spec fn kept_parts(parts: Seq<Seq<char>>) -> Seq<Seq<char>>
    decreases parts.len(),
{
    if parts.len() == 0 {
        Seq::empty()
    } else if skipped_part(parts.last()) {
        kept_parts(parts.drop_last())
    } else {
        kept_parts(parts.drop_last()).push(parts.last())
    }
}

/// The pieces of an entry name: `/` and `\` both separate.
pub open spec fn entry_parts(name: Seq<char>) -> Seq<Seq<char>> {
    split_on(name, seq!['/', '\\'])
}

/// The relative path an archive entry may be unpacked to, as its components.
/// `Ok(None)` is an entry that names the archive root itself; an absolute name, a drive
/// prefix, a NUL or a `..` component is refused.
pub open spec fn spec_entry_path(name: Seq<char>) -> Result<Option<Seq<Seq<char>>>, UpdateError> {
    let parts = entry_parts(name);
    if name.len() > 0 && (name[0] == '/' || name[0] == '\\') {
        Err(UpdateError::Archive)
    } else if exists|i: int| 0 <= i < parts.len() && refused_part(#[trigger] parts[i]) {
        Err(UpdateError::Archive)
    } else if kept_parts(parts).len() == 0 {
        Ok(None)
    } else {
        Ok(Some(kept_parts(parts)))
    }
}

/// A component that stays where it is put: not empty, not `.` or `..`, and free of
/// separators, drive colons and NULs.
pub open spec fn safe_part(part: Seq<char>) -> bool {
    &&& part.len() > 0
    &&& part != seq!['.']
    &&& part != seq!['.', '.']
    &&& !part.contains('/')
    &&& !part.contains('\\')
    &&& !part.contains(':')
    &&& !part.contains('\0')
}

/// Every component is safe: the path cannot leave the directory it is joined to.
pub open spec fn safe_path(path: Seq<Seq<char>>) -> bool {
    forall|i: int| 0 <= i < path.len() ==> safe_part(#[trigger] path[i])
}

proof fn lemma_kept_parts_safe(parts: Seq<Seq<char>>)
    requires
        forall|i: int| 0 <= i < parts.len() ==> !refused_part(#[trigger] parts[i]),
        forall|i: int, j: int|
            0 <= i < parts.len() && 0 <= j < parts[i].len() ==> !seq!['/', '\\'].contains(
                #[trigger] parts[i][j],
            ),
    ensures
        safe_path(kept_parts(parts)),
    decreases parts.len(),
{
    if parts.len() > 0 {
        let rest = parts.drop_last();
        assert forall|i: int| 0 <= i < rest.len() implies !refused_part(#[trigger] rest[i]) by {
            assert(rest[i] == parts[i]);
        }
        assert forall|i: int, j: int|
            0 <= i < rest.len() && 0 <= j < rest[i].len() implies !seq!['/', '\\'].contains(
                #[trigger] rest[i][j],
            ) by {
            assert(rest[i] == parts[i]);
        }
        lemma_kept_parts_safe(rest);
        let p = parts.last();
        if !skipped_part(p) {
            assert(seq!['/', '\\'][0] == '/');
            assert(seq!['/', '\\'][1] == '\\');
            assert(!refused_part(parts[parts.len() - 1]));
            assert forall|k: int| 0 <= k < p.len() implies p[k] != '/' && p[k] != '\\' by {
                assert(!seq!['/', '\\'].contains(parts[parts.len() - 1][k]));
            }
            assert(safe_part(p));
            let kept = kept_parts(parts);
            assert forall|i: int| 0 <= i < kept.len() implies safe_part(#[trigger] kept[i]) by {
                if i < kept.len() - 1 {
                    assert(kept[i] == kept_parts(rest)[i]);
                }
            }
        }
    }
}

/// Every path an entry name may be unpacked to is a non-empty list of safe components:
/// nothing it names lies outside the directory it is joined to.
pub proof fn law_entry_paths_are_safe(name: Seq<char>)
    ensures
        spec_entry_path(name) matches Ok(Some(path)) ==> path.len() > 0 && safe_path(path),
{
    let parts = entry_parts(name);
    crate::chars::lemma_split_on_no_sep(name, seq!['/', '\\']);
    if !(exists|i: int| 0 <= i < parts.len() && refused_part(#[trigger] parts[i])) {
        lemma_kept_parts_safe(parts);
    }
}

/// Whether `part` is exactly `word`.
fn is_word(part: &[char], word: &[char]) -> (r: bool)
    ensures
        r == (part@ == word@),
{
    crate::chars::same_chars(part, word)
}

/// The relative path an archive entry may be unpacked to. `Ok(None)` is an entry that
/// names the archive root itself (`./`); an absolute path, a drive prefix or a `..`
/// component is refused outright.
pub fn entry_path(name: &str) -> (r: Result<Option<Vec<String>>, UpdateError>)
    ensures
        match r {
            Ok(Some(path)) => spec_entry_path(name@) == Ok::<Option<Seq<Seq<char>>>, UpdateError>(
                Some(strings_view(path@)),
            ),
            Ok(None) => spec_entry_path(name@) == Ok::<Option<Seq<Seq<char>>>, UpdateError>(None),
            Err(e) => spec_entry_path(name@) == Err::<Option<Seq<Seq<char>>>, UpdateError>(e),
        },
        r matches Ok(Some(path)) ==> path@.len() > 0 && safe_path(strings_view(path@)),
{
    let text = chars_of(name);
    if text.len() > 0 && (text[0] == '/' || text[0] == '\\') {
        return Err(UpdateError::Archive);
    }
    let seps = ['/', '\\'];
    let parts = split_chars(text.as_slice(), &seps);
    proof {
        assert(seps@ =~= seq!['/', '\\']);
        lemma_split_on_no_sep(name@, seq!['/', '\\']);
        assert(seq!['/', '\\'].contains('/')) by {
            assert(seq!['/', '\\'][0] == '/');
        }
        assert(seq!['/', '\\'].contains('\\')) by {
            assert(seq!['/', '\\'][1] == '\\');
        }
    }
    let ghost sparts = entry_parts(name@);
    let dot = ['.'];
    let dotdot = ['.', '.'];
    assert(dot@ =~= seq!['.']);
    assert(dotdot@ =~= seq!['.', '.']);
    let mut kept: Vec<String> = Vec::new();
    let mut i: usize = 0;
    assert(sparts.take(0) =~= Seq::<Seq<char>>::empty());
    while i < parts.len()
        invariant
            i <= parts@.len(),
            parts@.map_values(|p: Vec<char>| p@) == sparts,
            sparts == entry_parts(name@),
            dot@ == seq!['.'],
            dotdot@ == seq!['.', '.'],
            forall|a: int, b: int|
                0 <= a < sparts.len() && 0 <= b < sparts[a].len() ==> !seq!['/', '\\'].contains(
                    #[trigger] sparts[a][b],
                ),
            seq!['/', '\\'].contains('/'),
            seq!['/', '\\'].contains('\\'),
            forall|j: int| 0 <= j < i ==> !refused_part(#[trigger] sparts[j]),
            strings_view(kept@) == kept_parts(sparts.take(i as int)),
            safe_path(strings_view(kept@)),
        decreases parts@.len() - i,
    {
        let part = &parts[i];
        let ghost p = sparts[i as int];
        assert(part@ == p);
        assert(sparts.take(i + 1).drop_last() =~= sparts.take(i as int));
        assert(sparts.take(i + 1).last() == p);
        if part.len() == 0 || is_word(part.as_slice(), &dot) {
            i = i + 1;
            continue;
        }
        if is_word(part.as_slice(), &dotdot) {
            return Err(UpdateError::Archive);
        }
        if in_set(part.as_slice(), ':') || in_set(part.as_slice(), '\0') {
            return Err(UpdateError::Archive);
        }
        let piece = string_of(part.as_slice());
        proof {
            assert forall|k: int| 0 <= k < p.len() implies p[k] != '/' && p[k] != '\\' by {
                assert(!seq!['/', '\\'].contains(sparts[i as int][k]));
            }
            assert(!p.contains('/'));
            assert(!p.contains('\\'));
        }
        let ghost before = kept@;
        kept.push(piece);
        assert(strings_view(kept@) =~= strings_view(before).push(p));
        i = i + 1;
    }
    assert(sparts.take(sparts.len() as int) =~= sparts);
    if kept.len() == 0 {
        Ok(None)
    } else {
        Ok(Some(kept))
    }
}

/// What unpacking does with one zip entry.
#[derive(Debug)]
pub enum ZipStep {
    /// Nothing: the entry names the archive root, or is a symbolic link.
    Skip,
    /// Create the directory at this path.
    Dir(Vec<String>),
    /// Write the entry's data to the file at this path.
    File(Vec<String>),
}

/// What a zip entry named `name` is unpacked as: a refused name is an error, one naming
/// the archive root is skipped, a directory is created, a symbolic link is skipped and
/// anything else is written as a file.
pub open spec fn zip_step_is(
    step: Result<ZipStep, UpdateError>,
    name: Seq<char>,
    is_dir: bool,
    is_symlink: bool,
) -> bool {
    match spec_entry_path(name) {
        Err(e) => step == Err::<ZipStep, UpdateError>(e),
        Ok(None) => step matches Ok(ZipStep::Skip),
        Ok(Some(path)) => if is_dir {
            step matches Ok(ZipStep::Dir(p)) && strings_view(p@) == path
        } else if is_symlink {
            step matches Ok(ZipStep::Skip)
        } else {
            step matches Ok(ZipStep::File(p)) && strings_view(p@) == path
        },
    }
}

/// The step for a zip entry named `name`; every path it hands out is a non-empty list of
/// safe components.
pub fn zip_step(name: &str, is_dir: bool, is_symlink: bool) -> (r: Result<ZipStep, UpdateError>)
    ensures
        zip_step_is(r, name@, is_dir, is_symlink),
        r matches Ok(ZipStep::Dir(p)) ==> p@.len() > 0 && safe_path(strings_view(p@)),
        r matches Ok(ZipStep::File(p)) ==> p@.len() > 0 && safe_path(strings_view(p@)),
{
    match entry_path(name) {
        Err(e) => Err(e),
        Ok(None) => Ok(ZipStep::Skip),
        Ok(Some(path)) => if is_dir {
            Ok(ZipStep::Dir(path))
        } else if is_symlink {
            Ok(ZipStep::Skip)
        } else {
            Ok(ZipStep::File(path))
        },
    }
}

/// The formats an update archive comes in.
#[derive(Clone, Copy, Debug, PartialEq, Eq, Structural)]
pub enum ArchiveKind {
    Zip,
    TarGz,
}

/// The format an archive file name announces, compared without regard to ASCII case.
pub open spec fn spec_archive_kind(file_name: Seq<char>) -> Result<ArchiveKind, UpdateError> {
    let lower = lower_all(file_name);
    if ends_with(lower, ".zip"@) {
        Ok(ArchiveKind::Zip)
    } else if ends_with(lower, ".tar.gz"@) || ends_with(lower, ".tgz"@) {
        Ok(ArchiveKind::TarGz)
    } else {
        Err(UpdateError::Archive)
    }
}

/// How to unpack the archive called `file_name`.
pub fn archive_kind(file_name: &str) -> (r: Result<ArchiveKind, UpdateError>)
    ensures
        r == spec_archive_kind(file_name@),
{
    let text = chars_of(file_name);
    let mut lower: Vec<char> = Vec::new();
    let mut i: usize = 0;
    while i < text.len()
        invariant
            i <= text@.len(),
            lower@ =~= lower_all(text@).take(i as int),
        decreases text@.len() - i,
    {
        lower.push(to_ascii_lower(text[i]));
        i = i + 1;
    }
    assert(lower_all(text@).take(text@.len() as int) =~= lower_all(text@));
    let zip = chars_of(".zip");
    let targz = chars_of(".tar.gz");
    let tgz = chars_of(".tgz");
    if ends_with_chars(lower.as_slice(), zip.as_slice()) {
        Ok(ArchiveKind::Zip)
    } else if ends_with_chars(lower.as_slice(), targz.as_slice()) || ends_with_chars(
        lower.as_slice(),
        tgz.as_slice(),
    ) {
        Ok(ArchiveKind::TarGz)
    } else {
        Err(UpdateError::Archive)
    }
}

/// The permission bits a header's `mode` carries, when it carries any.
pub open spec fn kept_mode(mode: Option<u32>) -> Option<u32> {
    match mode {
        Some(m) => if m & 0o777u32 != 0 {
            Some(m & 0o777u32)
        } else {
            None
        },
        None => None,
    }
}

/// The permissions an unpacked file gets on Unix: the permission bits its entry
/// carries (`rw-r--r--` when it carries none), and for the executable at least
/// `rwxr-xr-x` (that when it carries none).
pub open spec fn spec_entry_mode(mode: Option<u32>, executable: bool) -> u32 {
    if executable {
        match kept_mode(mode) {
            Some(m) => m | 0o755u32,
            None => 0o755u32,
        }
    } else {
        match kept_mode(mode) {
            Some(m) => m,
            None => 0o644u32,
        }
    }
}

pub fn entry_mode(mode: Option<u32>, executable: bool) -> (r: u32)
    ensures
        r == spec_entry_mode(mode, executable),
{
    let kept = match mode {
        Some(m) => if m & 0o777 != 0 {
            Some(m & 0o777)
        } else {
            None
        },
        None => None,
    };
    if executable {
        match kept {
            Some(m) => m | 0o755,
            None => 0o755,
        }
    } else {
        match kept {
            Some(m) => m,
            None => 0o644,
        }
    }
}

/// An unpacked file never gets more than permission bits, and the executable can
/// always be run by everyone.
pub proof fn law_unpacked_modes_are_permissions(mode: Option<u32>, executable: bool)
    ensures
        spec_entry_mode(mode, executable) & 0o7777u32 == spec_entry_mode(mode, executable)
            && spec_entry_mode(mode, executable) <= 0o777u32,
        executable ==> spec_entry_mode(mode, executable) & 0o111u32 == 0o111u32,
{
    match mode {
        Some(m) => {
            assert((m & 0o777u32) <= 0o777u32) by (bit_vector);
            assert(((m & 0o777u32) | 0o755u32) <= 0o777u32) by (bit_vector);
            assert((((m & 0o777u32) | 0o755u32) & 0o111u32) == 0o111u32) by (bit_vector);
            assert((((m & 0o777u32) | 0o755u32) & 0o7777u32) == ((m & 0o777u32) | 0o755u32)) by (bit_vector);
            assert(((m & 0o777u32) & 0o7777u32) == (m & 0o777u32)) by (bit_vector);
            assert((0o755u32 & 0o111u32) == 0o111u32) by (bit_vector);
            assert((0o755u32 & 0o7777u32) == 0o755u32) by (bit_vector);
            assert((0o644u32 & 0o7777u32) == 0o644u32) by (bit_vector);
        },
        None => {
            assert((0o755u32 & 0o111u32) == 0o111u32) by (bit_vector);
            assert((0o755u32 & 0o7777u32) == 0o755u32) by (bit_vector);
            assert((0o644u32 & 0o7777u32) == 0o644u32) by (bit_vector);
        },
    }
}

// ---------------------------------------------------------------------------------
// Staged files

/// `a` sorts before `b`, component by component, as paths do.
pub open spec fn path_lt(a: Seq<Seq<char>>, b: Seq<Seq<char>>) -> bool
    decreases a.len(),
{
    if a.len() == 0 {
        b.len() > 0
    } else if b.len() == 0 {
        false
    } else if a[0] != b[0] {
        chars_lt(a[0], b[0])
    } else {
        path_lt(a.drop_first(), b.drop_first())
    }
}

/// The paths of `list`, each as its components.
pub open spec fn paths_view(list: Seq<Vec<String>>) -> Seq<Seq<Seq<char>>> {
    list.map_values(|p: Vec<String>| strings_view(p@))
}

/// Each path sorts strictly before the next: sorted and without repeats.
pub open spec fn strictly_sorted(paths: Seq<Seq<Seq<char>>>) -> bool {
    forall|i: int| 0 <= i < paths.len() - 1 ==> path_lt(#[trigger] paths[i], paths[i + 1])
}

/// The two lists hold the same paths.
pub open spec fn same_paths(a: Seq<Seq<Seq<char>>>, b: Seq<Seq<Seq<char>>>) -> bool {
    &&& forall|i: int| 0 <= i < a.len() ==> b.contains(#[trigger] a[i])
    &&& forall|i: int| 0 <= i < b.len() ==> a.contains(#[trigger] b[i])
}

fn path_less(a: &Vec<String>, b: &Vec<String>) -> (r: bool)
    ensures
        r == path_lt(strings_view(a@), strings_view(b@)),
{
    let ghost av = strings_view(a@);
    let ghost bv = strings_view(b@);
    let mut i: usize = 0;
    assert(av.skip(0) =~= av);
    assert(bv.skip(0) =~= bv);
    loop
        invariant
            i <= a@.len(),
            i <= b@.len(),
            av == strings_view(a@),
            bv == strings_view(b@),
            path_lt(av, bv) == path_lt(av.skip(i as int), bv.skip(i as int)),
        decreases a@.len() - i,
    {
        if i == a.len() {
            return i < b.len();
        }
        if i == b.len() {
            return false;
        }
        let x = chars_of(a[i].as_str());
        let y = chars_of(b[i].as_str());
        assert(av.skip(i as int)[0] == x@);
        assert(bv.skip(i as int)[0] == y@);
        if !crate::chars::same_chars(x.as_slice(), y.as_slice()) {
            return chars_less(x.as_slice(), y.as_slice());
        }
        assert(av.skip(i as int).drop_first() =~= av.skip(i + 1));
        assert(bv.skip(i as int).drop_first() =~= bv.skip(i + 1));
        i = i + 1;
    }
}

/// Whether the two paths have the same components.
pub fn same_path(a: &Vec<String>, b: &Vec<String>) -> (r: bool)
    ensures
        r == (strings_view(a@) == strings_view(b@)),
{
    if a.len() != b.len() {
        assert(strings_view(a@).len() != strings_view(b@).len());
        return false;
    }
    let mut i: usize = 0;
    while i < a.len()
        invariant
            a@.len() == b@.len(),
            i <= a@.len(),
            forall|j: int| 0 <= j < i ==> a@[j]@ == b@[j]@,
        decreases a@.len() - i,
    {
        if !(a[i] == b[i]) {
            assert(strings_view(a@)[i as int] != strings_view(b@)[i as int]);
            return false;
        }
        i = i + 1;
    }
    assert(strings_view(a@) =~= strings_view(b@));
    true
}

/// Whether `list` holds `path`.
pub fn holds_path(list: &Vec<Vec<String>>, path: &Vec<String>) -> (r: bool)
    ensures
        r == paths_view(list@).contains(strings_view(path@)),
{
    let mut i: usize = 0;
    while i < list.len()
        invariant
            i <= list@.len(),
            forall|j: int| 0 <= j < i ==> paths_view(list@)[j] != strings_view(path@),
        decreases list@.len() - i,
    {
        if same_path(&list[i], path) {
            assert(paths_view(list@)[i as int] == strings_view(path@));
            return true;
        }
        i = i + 1;
    }
    false
}

/// The files found under the staging directory (`files`, as listed there) checked
/// against what the archive `written`: the listing must be exactly the sorted,
/// de-duplicated entries, else something emptied the work directory meanwhile
/// (`Install`); and the set must carry the executable (`Archive`).
pub fn check_staged(files: Vec<Vec<String>>, written: &Vec<Vec<String>>, executable: &str) -> (r:
    Result<Vec<Vec<String>>, UpdateError>)
    ensures
        r is Ok <==> {
            &&& strictly_sorted(paths_view(files@))
            &&& same_paths(paths_view(files@), paths_view(written@))
            &&& paths_view(files@).contains(seq![executable@])
        },
        r matches Ok(kept) ==> kept@ == files@,
        r matches Err(e) ==> (e == UpdateError::Install <==> !(strictly_sorted(
            paths_view(files@),
        ) && same_paths(paths_view(files@), paths_view(written@)))),
        r matches Err(e) ==> (e == UpdateError::Install || e == UpdateError::Archive),
{
    let ghost fv = paths_view(files@);
    let ghost wv = paths_view(written@);
    let mut i: usize = 1;
    while i < files.len()
        invariant
            1 <= i,
            fv == paths_view(files@),
            forall|j: int| 0 <= j < i - 1 && j < fv.len() - 1 ==> path_lt(#[trigger] fv[j], fv[j + 1]),
        decreases files@.len() - i,
    {
        if !path_less(&files[i - 1], &files[i]) {
            assert(!path_lt(fv[i - 1], fv[i as int]));
            return Err(UpdateError::Install);
        }
        i = i + 1;
    }
    let mut i: usize = 0;
    while i < files.len()
        invariant
            i <= files@.len(),
            fv == paths_view(files@),
            wv == paths_view(written@),
            forall|j: int| 0 <= j < i ==> wv.contains(#[trigger] fv[j]),
        decreases files@.len() - i,
    {
        assert(fv[i as int] == strings_view(files@[i as int]@));
        if !holds_path(written, &files[i]) {
            assert(!wv.contains(fv[i as int]));
            return Err(UpdateError::Install);
        }
        i = i + 1;
    }
    let mut i: usize = 0;
    while i < written.len()
        invariant
            i <= written@.len(),
            fv == paths_view(files@),
            wv == paths_view(written@),
            forall|j: int| 0 <= j < i ==> fv.contains(#[trigger] wv[j]),
        decreases written@.len() - i,
    {
        assert(wv[i as int] == strings_view(written@[i as int]@));
        if !holds_path(&files, &written[i]) {
            assert(!fv.contains(wv[i as int]));
            return Err(UpdateError::Install);
        }
        i = i + 1;
    }
    let mut exe: Vec<String> = Vec::new();
    exe.push(string_of(chars_of(executable).as_slice()));
    assert(strings_view(exe@) =~= seq![executable@]);
    if !holds_path(&files, &exe) {
        return Err(UpdateError::Archive);
    }
    Ok(files)
}

} // verus!
