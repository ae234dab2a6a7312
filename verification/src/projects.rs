//! The project list: the search over project names and the order the list is shown
//! in.
use vstd::prelude::*;

use crate::chars::{
    chars_less, chars_lt, chars_of, contains_chars, contains_seq, is_ascii_text, lemma_chars_lt_order,
    lower_all, lowercase, occurs_at, string_of, to_lowercase, trim, trim_space,
};
use crate::state::SortKey;

verus! {

/// What the list shows of a project.
#[derive(Debug)]
pub struct ProjectSummary {
    pub id: String,
    pub name: String,
    /// When it was created, as ISO 8601 text.
    pub created_at: String,
    /// When it was last saved, as ISO 8601 text.
    pub updated_at: String,
    /// The length of its timeline, in ticks.
    pub duration_ticks: i64,
}

impl ProjectSummary {
    /// A copy of the summary.
    pub fn duplicate(&self) -> (r: ProjectSummary)
        ensures
            r == *self,
    {
        ProjectSummary {
            id: self.id.clone(),
            name: self.name.clone(),
            created_at: self.created_at.clone(),
            updated_at: self.updated_at.clone(),
            duration_ticks: self.duration_ticks,
        }
    }
}

/// A project the search for the lower-cased `needle` keeps: its lower-cased name holds
/// the needle, or the needle is empty.
pub open spec fn matches_search(project: ProjectSummary, needle: Seq<char>) -> bool {
    needle.len() == 0 || contains_seq(lowercase(project.name@), needle)
}

/// The projects the search keeps, in the order they were listed.
pub open spec fn matching(projects: Seq<ProjectSummary>, needle: Seq<char>) -> Seq<ProjectSummary>
    decreases projects.len(),
{
    if projects.len() == 0 {
        Seq::empty()
    } else {
        let earlier = matching(projects.drop_last(), needle);
        if matches_search(projects.last(), needle) {
            earlier.push(projects.last())
        } else {
            earlier
        }
    }
}

/// `a` sorts before `b` by `key` in ascending order: dates and names as text (names
/// lower-cased), durations as numbers.
pub open spec fn key_lt(a: ProjectSummary, b: ProjectSummary, key: SortKey) -> bool {
    match key {
        SortKey::CreatedAt => chars_lt(a.created_at@, b.created_at@),
        SortKey::UpdatedAt => chars_lt(a.updated_at@, b.updated_at@),
        SortKey::Name => chars_lt(lowercase(a.name@), lowercase(b.name@)),
        SortKey::Duration => a.duration_ticks < b.duration_ticks,
    }
}

/// `a` is shown before `b` whatever their places in the list.
pub open spec fn precedes(a: ProjectSummary, b: ProjectSummary, key: SortKey, ascending: bool) -> bool {
    if ascending {
        key_lt(a, b, key)
    } else {
        key_lt(b, a, key)
    }
}

/// `out` is `list` reordered by `perm` (`out[i]` is `list[perm[i]]`): sorted by `key`
/// in the direction asked, projects that sort alike keeping their order in `list`.
pub open spec fn stably_sorted(
    out: Seq<ProjectSummary>,
    list: Seq<ProjectSummary>,
    perm: Seq<int>,
    key: SortKey,
    ascending: bool,
) -> bool {
    &&& perm.len() == list.len()
    &&& out.len() == list.len()
    &&& forall|i: int| 0 <= i < perm.len() ==> 0 <= #[trigger] perm[i] < list.len()
    &&& forall|i: int, j: int| 0 <= i < j < perm.len() ==> perm[i] != perm[j]
    &&& forall|i: int| 0 <= i < out.len() ==> #[trigger] out[i] == list[perm[i]]
    &&& forall|i: int, j: int|
        0 <= i < j < out.len() ==> !precedes(#[trigger] out[j], #[trigger] out[i], key, ascending)
    &&& forall|i: int, j: int|
        0 <= i < j < out.len() && !precedes(#[trigger] out[i], #[trigger] out[j], key, ascending)
            ==> perm[i] < perm[j]
}

/// `precedes` is a strict weak order: irreflexive, asymmetric and transitive, and two
/// projects that sort alike stand in the same relation to every other.
pub proof fn lemma_precedes_order(
    a: ProjectSummary,
    b: ProjectSummary,
    c: ProjectSummary,
    key: SortKey,
    ascending: bool,
)
    ensures
        !precedes(a, a, key, ascending),
        precedes(a, b, key, ascending) ==> !precedes(b, a, key, ascending),
        precedes(a, b, key, ascending) && precedes(b, c, key, ascending) ==> precedes(
            a,
            c,
            key,
            ascending,
        ),
        !precedes(a, b, key, ascending) && !precedes(b, a, key, ascending) ==> (precedes(
            a,
            c,
            key,
            ascending,
        ) == precedes(b, c, key, ascending) && precedes(c, a, key, ascending) == precedes(
            c,
            b,
            key,
            ascending,
        )),
{
    match key {
        SortKey::CreatedAt => {
            lemma_chars_lt_order(a.created_at@, b.created_at@, c.created_at@);
            lemma_chars_lt_order(c.created_at@, b.created_at@, a.created_at@);
            lemma_chars_lt_order(b.created_at@, a.created_at@, c.created_at@);
        },
        SortKey::UpdatedAt => {
            lemma_chars_lt_order(a.updated_at@, b.updated_at@, c.updated_at@);
            lemma_chars_lt_order(c.updated_at@, b.updated_at@, a.updated_at@);
            lemma_chars_lt_order(b.updated_at@, a.updated_at@, c.updated_at@);
        },
        SortKey::Name => {
            let (x, y, z) = (lowercase(a.name@), lowercase(b.name@), lowercase(c.name@));
            lemma_chars_lt_order(x, y, z);
            lemma_chars_lt_order(z, y, x);
            lemma_chars_lt_order(y, x, z);
        },
        SortKey::Duration => {},
    }
}

/// Whether `list[i]` is shown before `list[j]`; `lower[k]` is the lower-cased name of
/// `list[k]`.
fn precedes_at(
    list: &Vec<ProjectSummary>,
    lower: &Vec<Vec<char>>,
    i: usize,
    j: usize,
    key: SortKey,
    ascending: bool,
) -> (r: bool)
    requires
        i < list@.len(),
        j < list@.len(),
        lower@.len() == list@.len(),
        forall|k: int| 0 <= k < list@.len() ==> (#[trigger] lower@[k])@ == lowercase(list@[k].name@),
    ensures
        r == precedes(list@[i as int], list@[j as int], key, ascending),
{
    let (x, y) = if ascending {
        (i, j)
    } else {
        (j, i)
    };
    match key {
        SortKey::CreatedAt => {
            let a = chars_of(list[x].created_at.as_str());
            let b = chars_of(list[y].created_at.as_str());
            chars_less(a.as_slice(), b.as_slice())
        },
        SortKey::UpdatedAt => {
            let a = chars_of(list[x].updated_at.as_str());
            let b = chars_of(list[y].updated_at.as_str());
            chars_less(a.as_slice(), b.as_slice())
        },
        SortKey::Name => chars_less(lower[x].as_slice(), lower[y].as_slice()),
        SortKey::Duration => list[x].duration_ticks < list[y].duration_ticks,
    }
}

/// The projects the list shows for `search`, sorted by `sort_key`, ascending or not.
/// The search is trimmed and lower-cased and matched against lower-cased names;
/// projects that sort alike keep the order they were listed in.
pub fn visible_projects(projects: &[ProjectSummary], search: &str, sort_key: SortKey, ascending: bool) -> (shown: Vec<ProjectSummary>)
    ensures
        exists|perm: Seq<int>|
            stably_sorted(
                shown@,
                matching(projects@, lowercase(trim(search@))),
                perm,
                sort_key,
                ascending,
            ),
        is_ascii_text(trim(search@)) ==> lowercase(trim(search@)) == lower_all(trim(search@)),
        forall|k: int|
            0 <= k < projects@.len() && is_ascii_text(#[trigger] projects@[k].name@) ==> lowercase(
                projects@[k].name@,
            ) == lower_all(projects@[k].name@),
{
    let query = chars_of(search);
    let trimmed = string_of(trim_space(query.as_slice()).as_slice());
    let needle_text = to_lowercase(trimmed.as_str());
    let needle = chars_of(needle_text.as_str());
    let ghost n = lowercase(trim(search@));

    // The projects the search keeps, with their lower-cased names.
    let mut list: Vec<ProjectSummary> = Vec::new();
    let mut lower: Vec<Vec<char>> = Vec::new();
    let mut i: usize = 0;
    assert(projects@.take(0) =~= Seq::<ProjectSummary>::empty());
    while i < projects.len()
        invariant
            i <= projects@.len(),
            needle@ == n,
            list@ == matching(projects@.take(i as int), n),
            lower@.len() == list@.len(),
            forall|k: int| 0 <= k < list@.len() ==> (#[trigger] lower@[k])@ == lowercase(list@[k].name@),
            is_ascii_text(trim(search@)) ==> n == lower_all(trim(search@)),
            forall|k: int|
                0 <= k < i && is_ascii_text(#[trigger] projects@[k].name@) ==> lowercase(
                    projects@[k].name@,
                ) == lower_all(projects@[k].name@),
        decreases projects@.len() - i,
    {
        let project = &projects[i];
        proof {
            assert(projects@.take(i + 1).drop_last() =~= projects@.take(i as int));
            assert(projects@.take(i + 1).last() == *project);
        }
        let name = to_lowercase(project.name.as_str());
        let name_chars = chars_of(name.as_str());
        if needle.len() == 0 || contains_chars(name_chars.as_slice(), needle.as_slice()) {
            list.push(project.duplicate());
            lower.push(name_chars);
        }
        i = i + 1;
    }
    assert(projects@.take(projects@.len() as int) =~= projects@);
    let ghost l = list@;

    // Insertion sort of the positions: each one goes in front of the first that it
    // sorts strictly before, so those that sort alike keep their order.
    let mut order: Vec<usize> = Vec::new();
    let mut k: usize = 0;
    while k < list.len()
        invariant
            l == list@,
            lower@.len() == list@.len(),
            forall|m: int| 0 <= m < list@.len() ==> (#[trigger] lower@[m])@ == lowercase(list@[m].name@),
            k <= l.len(),
            order@.len() == k,
            forall|a: int| 0 <= a < k ==> #[trigger] order@[a] < k,
            forall|a: int, b: int| 0 <= a < b < k ==> order@[a] != order@[b],
            forall|a: int, b: int|
                0 <= a < b < k ==> !precedes(
                    l[#[trigger] order@[b] as int],
                    l[#[trigger] order@[a] as int],
                    sort_key,
                    ascending,
                ),
            forall|a: int, b: int|
                0 <= a < b < k && !precedes(
                    l[#[trigger] order@[a] as int],
                    l[#[trigger] order@[b] as int],
                    sort_key,
                    ascending,
                ) ==> order@[a] < order@[b],
        decreases l.len() - k,
    {
        let mut p: usize = 0;
        while p < order.len() && !precedes_at(&list, &lower, k, order[p], sort_key, ascending)
            invariant
                l == list@,
                lower@.len() == list@.len(),
                forall|m: int| 0 <= m < list@.len() ==> (#[trigger] lower@[m])@ == lowercase(list@[m].name@),
                k < l.len(),
                order@.len() == k,
                forall|a: int| 0 <= a < k ==> #[trigger] order@[a] < k,
                p <= k,
                forall|a: int| 0 <= a < p ==> !precedes(l[k as int], l[#[trigger] order@[a] as int], sort_key, ascending),
            decreases k - p,
        {
            p = p + 1;
        }
        let ghost before = order@;
        order.insert(p, k);
        proof {
            let o = order@;
            assert(o.len() == k + 1);
            assert forall|a: int| 0 <= a < k + 1 implies #[trigger] o[a] < k + 1 by {
                if a < p {
                    assert(o[a] == before[a]);
                } else if a > p {
                    assert(o[a] == before[a - 1]);
                }
            }
            assert forall|a: int, b: int| 0 <= a < b < k + 1 implies o[a] != o[b] by {
                if a < p {
                    assert(o[a] == before[a]);
                } else if a > p {
                    assert(o[a] == before[a - 1]);
                }
                if b < p {
                    assert(o[b] == before[b]);
                } else if b > p {
                    assert(o[b] == before[b - 1]);
                }
            }
            assert forall|a: int, b: int| 0 <= a < b < k + 1 implies !precedes(
                l[#[trigger] o[b] as int],
                l[#[trigger] o[a] as int],
                sort_key,
                ascending,
            ) && (!precedes(l[o[a] as int], l[o[b] as int], sort_key, ascending) ==> o[a] < o[b]) by {
                if b < p {
                    assert(o[a] == before[a] && o[b] == before[b]);
                } else if b == p {
                    assert(o[a] == before[a]);
                    assert(o[b] == k);
                    assert(before[a] < k);
                } else if a > p {
                    assert(o[a] == before[a - 1] && o[b] == before[b - 1]);
                } else if a == p {
                    // The new position goes in front of `before[p]`, which sorts no later
                    // than anything after it.
                    assert(o[a] == k);
                    assert(o[b] == before[b - 1]);
                    let first = l[before[p as int] as int];
                    let here = l[k as int];
                    let there = l[before[b - 1] as int];
                    assert(precedes(here, first, sort_key, ascending));
                    lemma_precedes_order(there, here, first, sort_key, ascending);
                    lemma_precedes_order(here, there, first, sort_key, ascending);
                    if b - 1 > p {
                        assert(!precedes(there, first, sort_key, ascending));
                    }
                } else {
                    // a < p < b
                    assert(o[a] == before[a] && o[b] == before[b - 1]);
                }
            }
        }
        k = k + 1;
    }

    let mut shown: Vec<ProjectSummary> = Vec::new();
    let mut j: usize = 0;
    while j < order.len()
        invariant
            l == list@,
            order@.len() == l.len(),
            forall|a: int| 0 <= a < l.len() ==> #[trigger] order@[a] < l.len(),
            j <= order@.len(),
            shown@.len() == j,
            forall|a: int| 0 <= a < j ==> #[trigger] shown@[a] == l[order@[a] as int],
        decreases order@.len() - j,
    {
        shown.push(list[order[j]].duplicate());
        j = j + 1;
    }
    let ghost perm = order@.map_values(|v: usize| v as int);
    assert(stably_sorted(shown@, l, perm, sort_key, ascending));
    shown
}

proof fn lemma_matching_keeps(projects: Seq<ProjectSummary>, needle: Seq<char>, k: int)
    requires
        0 <= k < projects.len(),
        matches_search(projects[k], needle),
    ensures
        matching(projects, needle).contains(projects[k]),
    decreases projects.len(),
{
    let d = projects.drop_last();
    let m = matching(projects, needle);
    if k == projects.len() - 1 {
        assert(m[m.len() - 1] == projects[k]);
    } else {
        assert(d[k] == projects[k]);
        lemma_matching_keeps(d, needle, k);
        let e = matching(d, needle);
        let j = choose|j: int| 0 <= j < e.len() && e[j] == projects[k];
        if matches_search(projects.last(), needle) {
            assert(m[j] == e[j]);
        }
    }
}

proof fn lemma_matching_only_matches(projects: Seq<ProjectSummary>, needle: Seq<char>)
    ensures
        forall|i: int|
            0 <= i < matching(projects, needle).len() ==> matches_search(
                #[trigger] matching(projects, needle)[i],
                needle,
            ),
    decreases projects.len(),
{
    if projects.len() > 0 {
        lemma_matching_only_matches(projects.drop_last(), needle);
        let e = matching(projects.drop_last(), needle);
        let m = matching(projects, needle);
        assert forall|i: int| 0 <= i < m.len() implies matches_search(#[trigger] m[i], needle) by {
            if i < e.len() {
                assert(m[i] == e[i]);
            }
        }
    }
}

/// Whether `needle` is empty or `text` holds it starting at some place.
pub open spec fn holds_at_some_place(text: Seq<char>, needle: Seq<char>) -> bool {
    needle.len() == 0 || exists|at: int|
        0 <= at && at + needle.len() <= text.len() && #[trigger] text.subrange(at, at + needle.len())
            == needle
}

/// A reordering by an injective `perm` into `0..n` of length `n` reaches every place.
proof fn lemma_perm_reaches_all(perm: Seq<int>, n: int, j: int)
    requires
        perm.len() == n,
        forall|i: int| 0 <= i < n ==> 0 <= #[trigger] perm[i] < n,
        forall|a: int, b: int| 0 <= a < b < n ==> perm[a] != perm[b],
        0 <= j < n,
    ensures
        exists|i: int| 0 <= i < n && perm[i] == j,
{
    assert(perm.no_duplicates()) by {
        assert forall|a: int, b: int| 0 <= a < perm.len() && 0 <= b < perm.len() && a != b implies perm[a]
            != perm[b] by {
            if a > b {
                assert(perm[b] != perm[a]);
            }
        }
    }
    perm.unique_seq_to_set();
    let range = vstd::set_lib::set_int_range(0, n);
    vstd::set_lib::lemma_int_range(0, n);
    vstd::seq_lib::seq_to_set_is_finite(perm);
    assert(perm.to_set().subset_of(range)) by {
        assert forall|x: int| perm.to_set().contains(x) implies range.contains(x) by {
            let i = choose|i: int| 0 <= i < perm.len() && perm[i] == x;
        }
    }
    vstd::set_lib::lemma_subset_equality(perm.to_set(), range);
    assert(range.contains(j));
    assert(perm.to_set().contains(j));
}

/// The search keeps exactly the projects whose lower-cased name holds the needle
/// somewhere: a project named so that its lower-cased name is `before + needle + after`
/// is shown, whatever `before` and `after` are, and every project shown holds the needle
/// at some place of its lower-cased name (any project is shown for an empty needle).
/// `shown` is any list `visible_projects` may return for `projects` and the lower-cased,
/// trimmed search `needle`.
pub proof fn law_search_finds_names_anywhere(
    projects: Seq<ProjectSummary>,
    needle: Seq<char>,
    shown: Seq<ProjectSummary>,
    perm: Seq<int>,
    key: SortKey,
    ascending: bool,
    k: int,
    before: Seq<char>,
    after: Seq<char>,
)
    requires
        stably_sorted(shown, matching(projects, needle), perm, key, ascending),
        0 <= k < projects.len(),
        lowercase(projects[k].name@) == before + needle + after,
    ensures
        shown.contains(projects[k]),
        forall|i: int| 0 <= i < shown.len() ==> holds_at_some_place(lowercase(#[trigger] shown[i].name@), needle),
{
    let list = matching(projects, needle);
    let name = lowercase(projects[k].name@);
    assert(name.subrange(before.len() as int, (before.len() + needle.len()) as int) =~= needle);
    assert(occurs_at(name, needle, before.len() as int));
    assert(matches_search(projects[k], needle));
    lemma_matching_keeps(projects, needle, k);
    let j = choose|j: int| 0 <= j < list.len() && list[j] == projects[k];
    lemma_perm_reaches_all(perm, list.len() as int, j);
    let i = choose|i: int| 0 <= i < list.len() && perm[i] == j;
    assert(shown[i] == list[perm[i]]);
    lemma_matching_only_matches(projects, needle);
    assert forall|i: int| 0 <= i < shown.len() implies holds_at_some_place(lowercase(#[trigger] shown[i].name@), needle) by {
        assert(shown[i] == list[perm[i]]);
        assert(matches_search(list[perm[i]], needle));
        if needle.len() > 0 {
            let at = choose|at: int| occurs_at(lowercase(shown[i].name@), needle, at);
            assert(occurs_at(lowercase(shown[i].name@), needle, at));
            assert(lowercase(shown[i].name@).subrange(at, at + needle.len()) == needle);
            assert(at + needle.len() <= lowercase(shown[i].name@).len());
        }
    }
}

} // verus!
