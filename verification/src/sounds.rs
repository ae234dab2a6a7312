//! Sounds from the libraries and the credits they need: the attribution a sound
//! records in a project, the credit lines shown for it, and the sounds kept for later.
use vstd::prelude::*;

use crate::chars::{chars_of, push_str, str_equal, string_of, trim, trim_space};

verus! {

pub const MODE_MUSIC: usize = 0;

pub const MODE_EFFECTS: usize = 1;

pub const MODE_SAVED: usize = 2;

pub const FREESOUND_KEY_VARIABLE: &'static str = "CUTIX_FREESOUND_API_KEY";

/// The tabs of the sounds panel: each view's key and the translation key of its label.
pub fn modes() -> (modes: Vec<(&'static str, &'static str)>)
    ensures
        modes@.len() == 3,
        modes@[0].0@ == "music"@,
        modes@[0].1@ == "sounds.music"@,
        modes@[1].0@ == "effects"@,
        modes@[1].1@ == "sounds.effects"@,
        modes@[2].0@ == "saved"@,
        modes@[2].1@ == "sounds.saved"@,
{
    let mut modes: Vec<(&'static str, &'static str)> = Vec::new();
    modes.push(("music", "sounds.music"));
    modes.push(("effects", "sounds.effects"));
    modes.push(("saved", "sounds.saved"));
    modes
}

/// The libraries sounds come from.
#[derive(Clone, Copy, Debug, PartialEq, Eq, Structural)]
pub enum SoundSource {
    Archive,
    Openverse,
    Freesound,
}

/// The icon shown for a library.
pub fn source_glyph(source: SoundSource) -> (glyph: &'static str)
    ensures
        glyph@ == (match source {
            SoundSource::Archive => "folder03"@,
            SoundSource::Openverse => "music-note03"@,
            SoundSource::Freesound => "headphones"@,
        }),
{
    match source {
        SoundSource::Archive => "folder03",
        SoundSource::Openverse => "music-note03",
        SoundSource::Freesound => "headphones",
    }
}

/// What the credits read of a search result.
#[derive(Debug)]
pub struct SoundInfo {
    pub id: String,
    pub name: String,
    pub username: String,
    pub license: String,
    pub license_url: Option<String>,
    pub url: String,
    pub landing_url: Option<String>,
    pub provider: Option<String>,
    /// The name of the library the result came from.
    pub source_label: String,
}

impl SoundInfo {
    /// A copy of the result.
    pub fn duplicate(&self) -> (r: SoundInfo)
        ensures
            r == *self,
    {
        SoundInfo {
            id: copy_string(&self.id),
            name: copy_string(&self.name),
            username: copy_string(&self.username),
            license: copy_string(&self.license),
            license_url: copy_opt(&self.license_url),
            url: copy_string(&self.url),
            landing_url: copy_opt(&self.landing_url),
            provider: copy_opt(&self.provider),
            source_label: copy_string(&self.source_label),
        }
    }
}

/// Who made an asset a project uses, under which licence, and where it came from.
#[derive(Debug, PartialEq, Eq)]
pub struct Attribution {
    pub id: String,
    pub title: String,
    pub creator: String,
    pub license: String,
    pub license_url: Option<String>,
    pub source_url: Option<String>,
    pub provider: Option<String>,
    pub added_at: String,
}

fn copy_string(s: &String) -> (r: String)
    ensures
        r == *s,
{
    s.clone()
}

fn copy_opt(s: &Option<String>) -> (r: Option<String>)
    ensures
        r == *s,
{
    match s {
        Some(v) => Some(v.clone()),
        None => None,
    }
}

impl Attribution {
    /// A copy of the attribution.
    pub fn duplicate(&self) -> (r: Attribution)
        ensures
            r == *self,
    {
        Attribution {
            id: copy_string(&self.id),
            title: copy_string(&self.title),
            creator: copy_string(&self.creator),
            license: copy_string(&self.license),
            license_url: copy_opt(&self.license_url),
            source_url: copy_opt(&self.source_url),
            provider: copy_opt(&self.provider),
            added_at: copy_string(&self.added_at),
        }
    }
}

/// Where an attribution points to: the landing page when the result has one, the
/// result's own URL otherwise, and nowhere when that is empty.
pub open spec fn attributed_source(result: SoundInfo) -> Option<Seq<char>> {
    let chosen = match result.landing_url {
        Some(u) => u@,
        None => result.url@,
    };
    if chosen.len() > 0 {
        Some(chosen)
    } else {
        None
    }
}

/// The attribution a sound records when it is added to a project.
pub fn attribution_for(result: &SoundInfo, added_at: String) -> (a: Attribution)
    ensures
        a.id == result.id,
        a.title == result.name,
        a.creator == result.username,
        a.license == result.license,
        a.license_url == result.license_url,
        crate::chars::opt_view(a.source_url) == attributed_source(*result),
        crate::chars::opt_view(a.provider) == Some(
            match result.provider {
                Some(p) => p@,
                None => result.source_label@,
            },
        ),
        a.added_at == added_at,
{
    let chosen = match &result.landing_url {
        Some(u) => copy_string(u),
        None => copy_string(&result.url),
    };
    let source_url = if chosen.as_str().is_empty() {
        None
    } else {
        Some(chosen)
    };
    let provider = match &result.provider {
        Some(p) => Some(copy_string(p)),
        None => Some(copy_string(&result.source_label)),
    };
    Attribution {
        id: copy_string(&result.id),
        title: copy_string(&result.name),
        creator: copy_string(&result.username),
        license: copy_string(&result.license),
        license_url: copy_opt(&result.license_url),
        source_url,
        provider,
        added_at,
    }
}

/// ` · `, the separator of a credit line.
pub open spec fn credit_separator() -> Seq<char> {
    seq![' ', '\u{b7}', ' ']
}

/// The credit line of a search result: its licence and who provides it, or the
/// provider alone when there is no licence.
pub open spec fn spec_credit_line(result: SoundInfo) -> Seq<char> {
    let provider = match result.provider {
        Some(p) => p@,
        None => result.source_label@,
    };
    if result.license@.len() == 0 {
        provider
    } else {
        result.license@ + credit_separator() + provider
    }
}

pub fn credit_line(result: &SoundInfo) -> (line: String)
    ensures
        line@ == spec_credit_line(*result),
{
    let provider = match &result.provider {
        Some(p) => copy_string(p),
        None => copy_string(&result.source_label),
    };
    if result.license.as_str().is_empty() {
        return provider;
    }
    let mut out = chars_of(result.license.as_str());
    out.push(' ');
    out.push('\u{b7}');
    out.push(' ');
    push_str(&mut out, provider.as_str());
    assert(out@ =~= spec_credit_line(*result));
    string_of(out.as_slice())
}

/// A search result's credit line names who provides it: its provider when it has one,
/// else the library it came from, after the licence and ` · ` when there is a licence.
pub proof fn law_credit_line_names_the_provider(result: SoundInfo)
    ensures
        result.provider matches Some(p) ==> spec_credit_line(result) == if result.license@.len() == 0 {
            p@
        } else {
            result.license@ + seq![' ', '\u{b7}', ' '] + p@
        },
        result.provider is None ==> spec_credit_line(result) == if result.license@.len() == 0 {
            result.source_label@
        } else {
            result.license@ + seq![' ', '\u{b7}', ' '] + result.source_label@
        },
{
}

/// The credit line of a result and that of the attribution recorded for it agree
/// whenever the result names a provider and a licence: both read `licence · provider`.
pub proof fn law_credits_agree_with_the_attribution(result: SoundInfo, a: Attribution)
    requires
        a.license == result.license,
        crate::chars::opt_view(a.provider) == Some(
            match result.provider {
                Some(p) => p@,
                None => result.source_label@,
            },
        ),
        result.license@.len() > 0,
        result.provider matches Some(p) && p@.len() > 0,
    ensures
        spec_attribution_credit_line(a) == spec_credit_line(result),
        spec_credit_line(result) == result.license@ + seq![' ', '\u{b7}', ' '] + result.provider->Some_0@,
{
}

/// The credit line of a recorded attribution: `licence · provider`, the provider alone
/// without a licence, the licence alone without a provider.
pub open spec fn spec_attribution_credit_line(entry: Attribution) -> Seq<char> {
    match entry.provider {
        Some(p) => if p@.len() > 0 && entry.license@.len() > 0 {
            entry.license@ + credit_separator() + p@
        } else if p@.len() > 0 {
            p@
        } else {
            entry.license@
        },
        None => entry.license@,
    }
}

pub fn attribution_credit_line(entry: &Attribution) -> (line: String)
    ensures
        line@ == spec_attribution_credit_line(*entry),
{
    match &entry.provider {
        Some(provider) => {
            if !provider.as_str().is_empty() && !entry.license.as_str().is_empty() {
                let mut out = chars_of(entry.license.as_str());
                out.push(' ');
                out.push('\u{b7}');
                out.push(' ');
                push_str(&mut out, provider.as_str());
                assert(out@ =~= spec_attribution_credit_line(*entry));
                string_of(out.as_slice())
            } else if !provider.as_str().is_empty() {
                copy_string(provider)
            } else {
                copy_string(&entry.license)
            }
        },
        None => copy_string(&entry.license),
    }
}

/// An attribution that credits nobody: title, creator and licence all blank.
pub open spec fn blank_attribution(entry: Attribution) -> bool {
    &&& trim(entry.title@).len() == 0
    &&& trim(entry.creator@).len() == 0
    &&& trim(entry.license@).len() == 0
}

/// The credits of a project: blank entries dropped, and each asset once, as it was
/// first recorded.
pub open spec fn collected(list: Seq<Attribution>) -> Seq<Attribution>
    decreases list.len(),
{
    if list.len() == 0 {
        Seq::empty()
    } else {
        let earlier = collected(list.drop_last());
        let entry = list.last();
        if blank_attribution(entry) || exists|i: int|
            0 <= i < earlier.len() && (#[trigger] earlier[i]).id@ == entry.id@ {
            earlier
        } else {
            earlier.push(entry)
        }
    }
}

fn is_blank(s: &String) -> (r: bool)
    ensures
        r == (trim(s@).len() == 0),
{
    let chars = chars_of(s.as_str());
    let t = trim_space(chars.as_slice());
    t.len() == 0
}

/// The attributions a project credits.
pub fn collect_attributions(attributions: &Option<Vec<Attribution>>) -> (out: Vec<Attribution>)
    ensures
        match attributions {
            Some(list) => out@ == collected(list@),
            None => out@.len() == 0,
        },
{
    let list = match attributions {
        Some(list) => list,
        None => return Vec::new(),
    };
    let mut out: Vec<Attribution> = Vec::new();
    let mut i: usize = 0;
    assert(list@.take(0) =~= Seq::<Attribution>::empty());
    while i < list.len()
        invariant
            i <= list@.len(),
            out@ == collected(list@.take(i as int)),
        decreases list@.len() - i,
    {
        let entry = &list[i];
        let ghost earlier = out@;
        proof {
            assert(list@.take(i + 1).drop_last() =~= list@.take(i as int));
            assert(list@.take(i + 1).last() == *entry);
        }
        if !(is_blank(&entry.title) && is_blank(&entry.creator) && is_blank(&entry.license)) {
            let mut seen = false;
            let mut k: usize = 0;
            while k < out.len()
                invariant
                    k <= out@.len(),
                    out@ == earlier,
                    seen == exists|j: int| 0 <= j < k && (#[trigger] earlier[j]).id@ == entry.id@,
                decreases out@.len() - k,
            {
                if str_equal(out[k].id.as_str(), entry.id.as_str()) {
                    seen = true;
                }
                k = k + 1;
            }
            if !seen {
                out.push(entry.duplicate());
            }
        }
        i = i + 1;
    }
    assert(list@.take(list@.len() as int) =~= list@);
    out
}

/// No asset is credited twice.
pub proof fn law_credits_name_each_asset_once(list: Seq<Attribution>)
    ensures
        forall|i: int, j: int|
            0 <= i < j < collected(list).len() ==> (#[trigger] collected(list)[i]).id@ != (
            #[trigger] collected(list)[j]).id@,
    decreases list.len(),
{
    if list.len() > 0 {
        law_credits_name_each_asset_once(list.drop_last());
    }
}

/// Every credit is one the project recorded, and not a blank one.
pub proof fn law_credits_come_from_the_project(list: Seq<Attribution>)
    ensures
        forall|i: int|
            0 <= i < collected(list).len() ==> list.contains(#[trigger] collected(list)[i])
                && !blank_attribution(collected(list)[i]),
    decreases list.len(),
{
    if list.len() > 0 {
        law_credits_come_from_the_project(list.drop_last());
        let earlier = collected(list.drop_last());
        assert forall|i: int| 0 <= i < collected(list).len() implies list.contains(
            #[trigger] collected(list)[i],
        ) && !blank_attribution(collected(list)[i]) by {
            if i < earlier.len() {
                assert(collected(list)[i] == earlier[i]);
                assert(list.drop_last().contains(earlier[i]));
                let k = choose|k: int| 0 <= k < list.drop_last().len() && list.drop_last()[k] == earlier[i];
                assert(list[k] == earlier[i]);
            } else {
                assert(collected(list)[i] == list.last());
                assert(list[list.len() - 1] == list.last());
            }
        }
    }
}

// ---------------------------------------------------------------------------------
// Saved sounds

/// The sounds kept for later, in the order they were saved.
#[derive(Debug)]
pub struct SavedSounds {
    pub entries: Vec<SoundInfo>,
}

/// The position of the first entry with `id`, or the length when there is none.
pub open spec fn first_with_id(entries: Seq<SoundInfo>, id: Seq<char>) -> nat
    decreases entries.len(),
{
    if entries.len() == 0 {
        0
    } else if entries[0].id@ == id {
        0
    } else {
        1 + first_with_id(entries.drop_first(), id)
    }
}

/// Whether an entry with `id` is saved.
pub open spec fn saved(entries: Seq<SoundInfo>, id: Seq<char>) -> bool {
    first_with_id(entries, id) < entries.len()
}

/// What saving or un-saving `result` makes of `entries`: it is appended when no entry
/// has its id, else the first entry with its id is dropped.
pub open spec fn spec_toggle(entries: Seq<SoundInfo>, result: SoundInfo) -> Seq<SoundInfo> {
    let at = first_with_id(entries, result.id@);
    if at == entries.len() {
        entries.push(result)
    } else {
        entries.remove(at as int)
    }
}

/// No two entries share an id.
pub open spec fn distinct_ids(entries: Seq<SoundInfo>) -> bool {
    forall|i: int, j: int|
        0 <= i < j < entries.len() ==> (#[trigger] entries[i]).id@ != (#[trigger] entries[j]).id@
}

/// `first_with_id` is the first position holding `id`.
pub proof fn lemma_first_with_id(entries: Seq<SoundInfo>, id: Seq<char>)
    ensures
        first_with_id(entries, id) <= entries.len(),
        forall|j: int| 0 <= j < first_with_id(entries, id) ==> (#[trigger] entries[j]).id@ != id,
        first_with_id(entries, id) < entries.len() ==> entries[first_with_id(entries, id) as int].id@
            == id,
    decreases entries.len(),
{
    if entries.len() > 0 && entries[0].id@ != id {
        let rest = entries.drop_first();
        lemma_first_with_id(rest, id);
        assert forall|j: int| 0 <= j < first_with_id(entries, id) implies (#[trigger] entries[j]).id@
            != id by {
            if j > 0 {
                assert(entries[j] == rest[j - 1]);
            }
        }
    }
}

impl SavedSounds {
    /// No sound saved.
    pub fn new() -> (saved: SavedSounds)
        ensures
            saved.entries@.len() == 0,
    {
        SavedSounds { entries: Vec::new() }
    }

    /// Whether the sound with `id` is saved.
    pub fn contains(&self, id: &str) -> (r: bool)
        ensures
            r == saved(self.entries@, id@),
    {
        proof {
            lemma_first_with_id(self.entries@, id@);
        }
        let mut i: usize = 0;
        while i < self.entries.len()
            invariant
                i <= self.entries@.len(),
                forall|j: int| 0 <= j < i ==> (#[trigger] self.entries@[j]).id@ != id@,
                first_with_id(self.entries@, id@) <= self.entries@.len(),
                forall|j: int| 0 <= j < first_with_id(self.entries@, id@) ==> (#[trigger] self.entries@[j]).id@ != id@,
                first_with_id(self.entries@, id@) < self.entries@.len() ==> self.entries@[first_with_id(self.entries@, id@) as int].id@ == id@,
            decreases self.entries@.len() - i,
        {
            if str_equal(self.entries[i].id.as_str(), id) {
                return true;
            }
            i = i + 1;
        }
        false
    }

    /// Saves `result` when it is not saved yet and un-saves it when it is; says
    /// whether it was saved.
    pub fn toggle(&mut self, result: &SoundInfo) -> (added: bool)
        ensures
            added == !saved(old(self).entries@, result.id@),
            final(self).entries@ == spec_toggle(old(self).entries@, *result),
    {
        let ghost before = self.entries@;
        proof {
            lemma_first_with_id(before, result.id@);
        }
        let mut i: usize = 0;
        while i < self.entries.len()
            invariant
                self.entries@ == before,
                before == old(self).entries@,
                i <= before.len(),
                forall|j: int| 0 <= j < i ==> (#[trigger] before[j]).id@ != result.id@,
                first_with_id(before, result.id@) <= before.len(),
                forall|j: int| 0 <= j < first_with_id(before, result.id@) ==> (#[trigger] before[j]).id@ != result.id@,
                first_with_id(before, result.id@) < before.len() ==> before[first_with_id(before, result.id@) as int].id@ == result.id@,
            decreases before.len() - i,
        {
            if str_equal(self.entries[i].id.as_str(), result.id.as_str()) {
                assert(first_with_id(before, result.id@) == i);
                self.entries.remove(i);
                return false;
            }
            i = i + 1;
        }
        self.entries.push(result.duplicate());
        true
    }
}

/// Saving a sound that is not saved and then toggling it again leaves the list as it
/// was.
pub proof fn law_toggling_twice_restores(entries: Seq<SoundInfo>, result: SoundInfo)
    requires
        !saved(entries, result.id@),
    ensures
        spec_toggle(spec_toggle(entries, result), result) == entries,
{
    lemma_first_with_id(entries, result.id@);
    let once = entries.push(result);
    lemma_first_with_id(once, result.id@);
    assert(once[entries.len() as int] == result);
    assert(first_with_id(once, result.id@) == entries.len()) by {
        if first_with_id(once, result.id@) < entries.len() {
            assert(once[first_with_id(once, result.id@) as int] == entries[first_with_id(once, result.id@) as int]);
        }
    }
    assert(once.remove(entries.len() as int) =~= entries);
}

/// Toggling keeps ids distinct, and afterwards the sound is saved exactly when the
/// toggle says it was added.
pub proof fn law_toggle_flips_saved(entries: Seq<SoundInfo>, result: SoundInfo)
    requires
        distinct_ids(entries),
    ensures
        distinct_ids(spec_toggle(entries, result)),
        saved(spec_toggle(entries, result), result.id@) == !saved(entries, result.id@),
{
    lemma_first_with_id(entries, result.id@);
    let after = spec_toggle(entries, result);
    lemma_first_with_id(after, result.id@);
    let at = first_with_id(entries, result.id@);
    if at == entries.len() {
        assert forall|i: int, j: int| 0 <= i < j < after.len() implies (#[trigger] after[i]).id@
            != (#[trigger] after[j]).id@ by {
            if j == entries.len() {
                assert(after[i] == entries[i]);
            } else {
                assert(after[i] == entries[i] && after[j] == entries[j]);
            }
        }
        assert(after[entries.len() as int] == result);
        assert(saved(after, result.id@)) by {
            if first_with_id(after, result.id@) == after.len() {
                assert(after[entries.len() as int].id@ == result.id@);
            }
        }
    } else {
        assert forall|i: int, j: int| 0 <= i < j < after.len() implies (#[trigger] after[i]).id@
            != (#[trigger] after[j]).id@ by {
            let i0 = if i < at { i } else { i + 1 };
            let j0 = if j < at { j } else { j + 1 };
            assert(after[i] == entries[i0]);
            assert(after[j] == entries[j0]);
        }
        if first_with_id(after, result.id@) < after.len() {
            let k = first_with_id(after, result.id@) as int;
            let k0 = if k < at { k } else { k + 1 };
            assert(after[k] == entries[k0]);
            if k0 < at {
                assert(entries[k0].id@ != result.id@);
            } else {
                assert(entries[at as int].id@ == result.id@);
                assert(entries[at as int].id@ != entries[k0].id@);
            }
        }
    }
}

} // verus!
