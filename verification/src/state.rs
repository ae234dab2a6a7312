//! The application's screens, list settings, the small formatting rules of the
//! project list, and the timeline selection.
use vstd::prelude::*;

use crate::chars::{
    chars_of, lemma_split_on_nonempty, push_all, split_chars, split_on, str_equal, string_of,
};

verus! {

/// The screens of the application.
#[derive(Clone, Copy, Debug, PartialEq, Eq, Structural)]
pub enum Route {
    Home,
    Projects,
    Library,
    Editor,
}

/// How the project list is laid out.
#[derive(Clone, Copy, Debug, PartialEq, Eq, Structural)]
pub enum ViewMode {
    Grid,
    List,
}

/// What the project list is sorted by.
#[derive(Clone, Copy, Debug, PartialEq, Eq, Structural)]
pub enum SortKey {
    CreatedAt,
    UpdatedAt,
    Name,
    Duration,
}

impl SortKey {
    /// The translation key of the sort option's label.
    pub fn label_key(self) -> (key: &'static str)
        ensures
            key@ == (match self {
                SortKey::CreatedAt => "projects.sort.created"@,
                SortKey::UpdatedAt => "projects.sort.modified"@,
                SortKey::Name => "projects.sort.name"@,
                SortKey::Duration => "projects.sort.duration"@,
            }),
    {
        match self {
            SortKey::CreatedAt => "projects.sort.created",
            SortKey::UpdatedAt => "projects.sort.modified",
            SortKey::Name => "projects.sort.name",
            SortKey::Duration => "projects.sort.duration",
        }
    }
}

/// The kinds of media a project holds.
#[derive(Clone, Copy, Debug, PartialEq, Eq, Structural)]
pub enum MediaKind {
    Video,
    Audio,
    Image,
}

/// The icon shown for a kind of media.
pub fn media_glyph(kind: MediaKind) -> (glyph: &'static str)
    ensures
        glyph@ == (match kind {
            MediaKind::Video => "video01"@,
            MediaKind::Audio => "music-note03"@,
            MediaKind::Image => "happy01"@,
        }),
{
    match kind {
        MediaKind::Video => "video01",
        MediaKind::Audio => "music-note03",
        MediaKind::Image => "happy01",
    }
}

/// The state of the upload queue as the title bar summarises it.
#[derive(Clone, Debug, PartialEq)]
pub struct UploadSummary {
    pub active: usize,
    pub percent: u32,
    pub title: Option<String>,
    pub finished: usize,
}

impl Default for UploadSummary {
    fn default() -> (summary: Self)
        ensures
            summary.active == 0,
            summary.percent == 0,
            summary.title is None,
            summary.finished == 0,
    {
        UploadSummary { active: 0, percent: 0, title: None, finished: 0 }
    }
}

impl UploadSummary {
    /// Whether an upload is still running.
    pub fn is_busy(&self) -> (busy: bool)
        ensures
            busy == (self.active > 0),
    {
        self.active > 0
    }
}

/// How many bytes a character takes in UTF-8.
pub open spec fn utf8_width(c: char) -> nat {
    let n = c as u32;
    if n < 0x80 {
        1
    } else if n < 0x800 {
        2
    } else if n < 0x10000 {
        3
    } else {
        4
    }
}

/// The length of `s` in UTF-8 bytes, what `str::len` counts.
pub open spec fn utf8_len(s: Seq<char>) -> nat
    decreases s.len(),
{
    if s.len() == 0 {
        0
    } else {
        utf8_len(s.drop_last()) + utf8_width(s.last())
    }
}

proof fn lemma_utf8_len_prefix(s: Seq<char>, k: int)
    requires
        0 <= k <= s.len(),
    ensures
        utf8_len(s.take(k)) <= utf8_len(s),
    decreases s.len(),
{
    if k < s.len() {
        assert(s.drop_last().take(k) =~= s.take(k));
        lemma_utf8_len_prefix(s.drop_last(), k);
    } else {
        assert(s.take(k) =~= s);
    }
}

/// Whether `s` is four bytes long in UTF-8.
fn four_bytes(s: &[char]) -> (r: bool)
    ensures
        r == (utf8_len(s@) == 4),
{
    let mut total: usize = 0;
    let mut i: usize = 0;
    assert(s@.take(0) =~= Seq::<char>::empty());
    while i < s.len()
        invariant
            i <= s@.len(),
            total == utf8_len(s@.take(i as int)),
            total <= 4,
        decreases s@.len() - i,
    {
        let n = s[i] as u32;
        let w: usize = if n < 0x80 {
            1
        } else if n < 0x800 {
            2
        } else if n < 0x10000 {
            3
        } else {
            4
        };
        assert(s@.take(i + 1).drop_last() =~= s@.take(i as int));
        total = total + w;
        if total > 4 {
            proof {
                lemma_utf8_len_prefix(s@, i + 1);
            }
            return false;
        }
        i = i + 1;
    }
    assert(s@.take(s@.len() as int) =~= s@);
    total == 4
}

/// A date as the project list shows it: `YYYY-MM-DD…` becomes `DD.MM.YYYY`; anything
/// else is shown as it is.
pub open spec fn spec_format_date(iso: Seq<char>) -> Seq<char> {
    let date = split_on(iso, seq!['T'])[0];
    let parts = split_on(date, seq!['-']);
    if parts.len() >= 3 && utf8_len(parts[0]) == 4 {
        parts[2] + seq!['.'] + parts[1] + seq!['.'] + parts[0]
    } else {
        iso
    }
}

pub fn format_date(iso: &str) -> (text: String)
    ensures
        text@ == spec_format_date(iso@),
{
    let chars = chars_of(iso);
    let tee = ['T'];
    let pieces = split_chars(chars.as_slice(), &tee);
    proof {
        assert(tee@ =~= seq!['T']);
        lemma_split_on_nonempty(iso@, seq!['T']);
        assert(pieces@[0]@ == split_on(iso@, seq!['T'])[0]);
    }
    let dash = ['-'];
    let parts = split_chars(pieces[0].as_slice(), &dash);
    proof {
        assert(dash@ =~= seq!['-']);
    }
    let ghost sparts = split_on(split_on(iso@, seq!['T'])[0], seq!['-']);
    if parts.len() >= 3 && four_bytes(parts[0].as_slice()) {
        assert(parts@[0]@ == sparts[0]);
        assert(parts@[1]@ == sparts[1]);
        assert(parts@[2]@ == sparts[2]);
        let mut out: Vec<char> = Vec::new();
        push_all(&mut out, parts[2].as_slice());
        out.push('.');
        push_all(&mut out, parts[1].as_slice());
        out.push('.');
        push_all(&mut out, parts[0].as_slice());
        assert(out@ =~= spec_format_date(iso@));
        string_of(out.as_slice())
    } else {
        proof {
            if parts@.len() >= 3 {
                assert(parts@[0]@ == sparts[0]);
            }
        }
        string_of(chars.as_slice())
    }
}

// ---------------------------------------------------------------------------------
// The timeline selection

/// The position of the first `id` in `selection`, or its length when `id` is not there.
pub open spec fn position_of(selection: Seq<Seq<char>>, id: Seq<char>) -> nat
    decreases selection.len(),
{
    if selection.len() == 0 {
        0
    } else if selection[0] == id {
        0
    } else {
        1 + position_of(selection.drop_first(), id)
    }
}

/// `position_of` is the first position holding `id`.
pub proof fn lemma_position_of(selection: Seq<Seq<char>>, id: Seq<char>)
    ensures
        position_of(selection, id) <= selection.len(),
        forall|j: int| 0 <= j < position_of(selection, id) ==> #[trigger] selection[j] != id,
        position_of(selection, id) < selection.len() ==> selection[position_of(selection, id) as int]
            == id,
    decreases selection.len(),
{
    if selection.len() > 0 && selection[0] != id {
        let rest = selection.drop_first();
        lemma_position_of(rest, id);
        assert forall|j: int| 0 <= j < position_of(selection, id) implies #[trigger] selection[j]
            != id by {
            if j > 0 {
                assert(selection[j] == rest[j - 1]);
            }
        }
    }
}

/// The selection after a shift-click on `id`: `id` is taken out when it is selected,
/// and added at the end when it is not.
pub open spec fn spec_extend_selection(selection: Seq<Seq<char>>, id: Seq<char>) -> Seq<Seq<char>> {
    let at = position_of(selection, id);
    if at == selection.len() {
        selection.push(id)
    } else {
        selection.remove(at as int)
    }
}

fn position_in(selection: &Vec<String>, id: &str) -> (at: usize)
    ensures
        at == position_of(crate::chars::strings_view(selection@), id@),
{
    let ghost sv = crate::chars::strings_view(selection@);
    proof {
        lemma_position_of(sv, id@);
    }
    let mut i: usize = 0;
    while i < selection.len()
        invariant
            sv == crate::chars::strings_view(selection@),
            i <= selection@.len(),
            forall|j: int| 0 <= j < i ==> #[trigger] sv[j] != id@,
            position_of(sv, id@) <= sv.len(),
            forall|j: int| 0 <= j < position_of(sv, id@) ==> #[trigger] sv[j] != id@,
            position_of(sv, id@) < sv.len() ==> sv[position_of(sv, id@) as int] == id@,
        decreases selection@.len() - i,
    {
        assert(sv[i as int] == selection@[i as int]@);
        if str_equal(selection[i].as_str(), id) {
            return i;
        }
        i = i + 1;
    }
    i
}

/// Whether `id` is selected.
pub fn is_selected(selection: &Vec<String>, id: &str) -> (r: bool)
    ensures
        r == crate::chars::strings_view(selection@).contains(id@),
{
    let at = position_in(selection, id);
    proof {
        let sv = crate::chars::strings_view(selection@);
        lemma_position_of(sv, id@);
        if sv.contains(id@) {
            let k = choose|k: int| 0 <= k < sv.len() && sv[k] == id@;
            assert(position_of(sv, id@) <= k);
        }
    }
    at < selection.len()
}

/// Adds `id` to the selection, or takes it out when it is selected already.
pub fn extend_selection(selection: &mut Vec<String>, id: &str)
    ensures
        crate::chars::strings_view(final(selection)@) == spec_extend_selection(
            crate::chars::strings_view(old(selection)@),
            id@,
        ),
{
    let ghost before = crate::chars::strings_view(selection@);
    let at = position_in(selection, id);
    proof {
        lemma_position_of(before, id@);
    }
    if at < selection.len() {
        selection.remove(at);
        assert(crate::chars::strings_view(selection@) =~= before.remove(at as int));
    } else {
        selection.push(string_of(chars_of(id).as_slice()));
        assert(crate::chars::strings_view(selection@) =~= before.push(id@));
    }
}

/// Shift-clicking an element that is not selected, twice, leaves the selection as it
/// was.
pub proof fn law_extending_twice_restores(selection: Seq<Seq<char>>, id: Seq<char>)
    requires
        !selection.contains(id),
    ensures
        spec_extend_selection(spec_extend_selection(selection, id), id) == selection,
{
    lemma_position_of(selection, id);
    if position_of(selection, id) < selection.len() {
        assert(selection[position_of(selection, id) as int] == id);
    }
    let once = selection.push(id);
    lemma_position_of(once, id);
    assert(once[selection.len() as int] == id);
    assert(position_of(once, id) == selection.len()) by {
        if position_of(once, id) < selection.len() {
            assert(once[position_of(once, id) as int] == selection[position_of(once, id) as int]);
        }
    }
    assert(once.remove(selection.len() as int) =~= selection);
}

// ---------------------------------------------------------------------------------
// File names

/// One component of a file path, as the platform splits it.
#[derive(Clone, Debug, PartialEq, Eq)]
pub enum PathPart {
    /// A drive or share prefix (Windows).
    Prefix(String),
    /// The root directory.
    Root,
    /// `.`
    Current,
    /// `..`
    Parent,
    /// A name, as text (empty when the name is not valid Unicode).
    Normal(String),
}

/// The name shown for a file: its path's last component when that is a name, and
/// nothing otherwise (a root, a prefix, `.`, `..` or an empty path).
pub open spec fn spec_file_label(parts: Seq<PathPart>) -> Seq<char> {
    if parts.len() > 0 && parts.last() is Normal {
        parts.last()->Normal_0@
    } else {
        Seq::empty()
    }
}

pub fn file_label(parts: &Vec<PathPart>) -> (label: String)
    ensures
        label@ == spec_file_label(parts@),
{
    if parts.len() == 0 {
        return String::new();
    }
    match &parts[parts.len() - 1] {
        PathPart::Normal(name) => name.clone(),
        _ => String::new(),
    }
}

} // verus!
