//! The sticker picker: its categories, the catalogue's entries and the search over
//! them.
use vstd::prelude::*;

use crate::chars::{
    chars_of, contains_chars, contains_seq, is_space, join, join_strings, lower_all, push_all,
    is_ascii_text, lowercase, str_equal, string_of, strings_view, to_lowercase, trim, trim_space,
};

verus! {

/// The categories of the picker: each one's key and the translation key of its label.
pub fn categories() -> (categories: Vec<(&'static str, &'static str)>)
    ensures
        categories@.len() == 3,
        categories@[0].0@ == "all"@,
        categories@[0].1@ == "stickers.category.all"@,
        categories@[1].0@ == "flags"@,
        categories@[1].1@ == "stickers.category.flags"@,
        categories@[2].0@ == "shapes"@,
        categories@[2].1@ == "stickers.category.shapes"@,
{
    let mut categories: Vec<(&'static str, &'static str)> = Vec::new();
    categories.push(("all", "stickers.category.all"));
    categories.push(("flags", "stickers.category.flags"));
    categories.push(("shapes", "stickers.category.shapes"));
    categories
}

/// One sticker of the catalogue, with the text its search matches against.
#[derive(Clone, Debug, PartialEq)]
pub struct StickerEntry {
    pub sticker_id: String,
    pub name: String,
    pub category: &'static str,
    pub search: String,
}

impl StickerEntry {
    /// A copy of the entry.
    pub fn duplicate(&self) -> (r: StickerEntry)
        ensures
            r == *self,
    {
        StickerEntry {
            sticker_id: self.sticker_id.clone(),
            name: self.name.clone(),
            category: self.category,
            search: self.search.clone(),
        }
    }
}

/// An entry the picker shows for `category` and the lower-cased `needle`.
pub open spec fn shown(entry: StickerEntry, category: Seq<char>, needle: Seq<char>) -> bool {
    &&& (category == "all"@ || entry.category@ == category)
    &&& (needle.len() == 0 || contains_seq(entry.search@, needle))
}

/// The entries shown, in catalogue order.
pub open spec fn spec_filtered(entries: Seq<StickerEntry>, category: Seq<char>, needle: Seq<char>) -> Seq<
    StickerEntry,
>
    decreases entries.len(),
{
    if entries.len() == 0 {
        Seq::empty()
    } else {
        let earlier = spec_filtered(entries.drop_last(), category, needle);
        if shown(entries.last(), category, needle) {
            earlier.push(entries.last())
        } else {
            earlier
        }
    }
}

/// The entries of `category` (every one for `all`) whose search text holds the
/// trimmed, lower-cased `query`.
pub fn filtered(entries: &[StickerEntry], category: &str, query: &str) -> (shown_entries: Vec<
    StickerEntry,
>)
    ensures
        shown_entries@ == spec_filtered(entries@, category@, lowercase(trim(query@))),
        is_ascii_text(trim(query@)) ==> lowercase(trim(query@)) == lower_all(trim(query@)),
{
    let q = chars_of(query);
    let trimmed = trim_space(q.as_slice());
    let trimmed_text = crate::chars::string_of(trimmed.as_slice());
    let needle_text = to_lowercase(trimmed_text.as_str());
    let needle = chars_of(needle_text.as_str());
    let ghost n = lowercase(trim(query@));
    let all = str_equal(category, "all");
    let mut out: Vec<StickerEntry> = Vec::new();
    let mut i: usize = 0;
    assert(entries@.take(0) =~= Seq::<StickerEntry>::empty());
    while i < entries.len()
        invariant
            i <= entries@.len(),
            needle@ == n,
            all == (category@ == "all"@),
            out@ == spec_filtered(entries@.take(i as int), category@, n),
        decreases entries@.len() - i,
    {
        let entry = &entries[i];
        proof {
            assert(entries@.take(i + 1).drop_last() =~= entries@.take(i as int));
            assert(entries@.take(i + 1).last() == *entry);
        }
        let in_category = all || str_equal(entry.category, category);
        if in_category {
            let search = chars_of(entry.search.as_str());
            if needle.len() == 0 || contains_chars(search.as_slice(), needle.as_slice()) {
                out.push(entry.duplicate());
            }
        }
        i = i + 1;
    }
    assert(entries@.take(entries@.len() as int) =~= entries@);
    out
}

/// The search keeps catalogue order and only ever drops entries: what it shows is a
/// selection of the catalogue, each entry shown fitting the category and the query.
pub proof fn law_search_only_narrows(entries: Seq<StickerEntry>, category: Seq<char>, needle: Seq<char>)
    ensures
        spec_filtered(entries, category, needle).len() <= entries.len(),
        forall|i: int|
            0 <= i < spec_filtered(entries, category, needle).len() ==> entries.contains(
                #[trigger] spec_filtered(entries, category, needle)[i],
            ) && shown(spec_filtered(entries, category, needle)[i], category, needle),
    decreases entries.len(),
{
    if entries.len() > 0 {
        let dl = entries.drop_last();
        law_search_only_narrows(dl, category, needle);
        let earlier = spec_filtered(dl, category, needle);
        let now = spec_filtered(entries, category, needle);
        assert forall|i: int| 0 <= i < now.len() implies entries.contains(#[trigger] now[i]) && shown(
            now[i],
            category,
            needle,
        ) by {
            if i < earlier.len() {
                assert(now[i] == earlier[i]);
                let k = choose|k: int| 0 <= k < dl.len() && dl[k] == earlier[i];
                assert(entries[k] == dl[k]);
            } else {
                assert(now[i] == entries.last());
                assert(entries[entries.len() - 1] == entries.last());
            }
        }
    }
}

/// The search text of a flag: the country's name, code, region and languages, each
/// lower-cased, separated by spaces.
pub open spec fn flag_search(name: Seq<char>, code: Seq<char>, region: Seq<char>, languages: Seq<Seq<char>>) -> Seq<char> {
    lowercase(name) + seq![' '] + lowercase(code) + seq![' '] + lowercase(region) + seq![' ']
        + lowercase(join(languages, ' '))
}

/// The catalogue entry of a country's flag, filed under `flags`.
pub fn flag_entry(sticker_id: String, name: &str, code: &str, region: &str, languages: &[String]) -> (entry: StickerEntry)
    ensures
        entry.sticker_id == sticker_id,
        entry.name@ == name@,
        entry.category@ == "flags"@,
        entry.search@ == flag_search(name@, code@, region@, strings_view(languages@)),
        is_ascii_text(name@) ==> lowercase(name@) == lower_all(name@),
        is_ascii_text(code@) ==> lowercase(code@) == lower_all(code@),
        is_ascii_text(region@) ==> lowercase(region@) == lower_all(region@),
        is_ascii_text(join(strings_view(languages@), ' ')) ==> lowercase(
            join(strings_view(languages@), ' '),
        ) == lower_all(join(strings_view(languages@), ' ')),
{
    let mut search: Vec<char> = Vec::new();
    let lower_name = to_lowercase(name);
    push_all(&mut search, chars_of(lower_name.as_str()).as_slice());
    search.push(' ');
    let lower_code = to_lowercase(code);
    push_all(&mut search, chars_of(lower_code.as_str()).as_slice());
    search.push(' ');
    let lower_region = to_lowercase(region);
    push_all(&mut search, chars_of(lower_region.as_str()).as_slice());
    search.push(' ');
    let joined = string_of(join_strings(languages, ' ').as_slice());
    let lower_languages = to_lowercase(joined.as_str());
    push_all(&mut search, chars_of(lower_languages.as_str()).as_slice());
    assert(search@ =~= flag_search(name@, code@, region@, strings_view(languages@)));
    StickerEntry {
        sticker_id,
        name: string_of(chars_of(name).as_slice()),
        category: "flags",
        search: string_of(search.as_slice()),
    }
}

/// The search text of a shape: its translated name lower-cased, its id and its
/// keywords, separated by spaces.
pub open spec fn shape_search(name: Seq<char>, id: Seq<char>, keywords: Seq<Seq<char>>) -> Seq<char> {
    lowercase(name) + seq![' '] + id + seq![' '] + join(keywords, ' ')
}

/// The catalogue entry of a shape, filed under `shapes`; `name` is its translated name.
pub fn shape_entry(sticker_id: String, name: String, id: &str, keywords: &[String]) -> (entry: StickerEntry)
    ensures
        entry.sticker_id == sticker_id,
        entry.name == name,
        entry.category@ == "shapes"@,
        entry.search@ == shape_search(name@, id@, strings_view(keywords@)),
        is_ascii_text(name@) ==> lowercase(name@) == lower_all(name@),
{
    let mut search: Vec<char> = Vec::new();
    let lower_name = to_lowercase(name.as_str());
    push_all(&mut search, chars_of(lower_name.as_str()).as_slice());
    search.push(' ');
    push_all(&mut search, chars_of(id).as_slice());
    search.push(' ');
    push_all(&mut search, join_strings(keywords, ' ').as_slice());
    assert(search@ =~= shape_search(name@, id@, strings_view(keywords@)));
    StickerEntry { sticker_id, name, category: "shapes", search: string_of(search.as_slice()) }
}

/// The whole catalogue: the shapes first, then the flags.
pub fn catalogue(shapes: Vec<StickerEntry>, flags: Vec<StickerEntry>) -> (entries: Vec<StickerEntry>)
    ensures
        entries@ == shapes@ + flags@,
{
    let mut entries = shapes;
    let mut rest = flags;
    entries.append(&mut rest);
    entries
}

} // verus!
