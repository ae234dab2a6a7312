//! The files an install moved aside (`<name>.old`, `<name>.old1`, …) and the list that
//! records them for the next start to delete.
use vstd::prelude::*;

use crate::archive::{
    entry_path, holds_path, kept_parts, paths_view, refused_part, safe_part, safe_path,
    spec_entry_path,
};
use crate::update::UpdateError;
use crate::chars::{
    all_digits, chars_of, decimal, join, join_strings, occurs, occurs_at, is_space, lemma_split_on_nonempty, lines, lines_of, push_decimal,
    split_on, string_of, strings_view, strip_cr, trim, trim_end_space, trim_space,
    trim_start_space,
};

verus! {

/// The suffix of the `index`-th name tried for a file moved aside: `.old`, then
/// `.old1`, `.old2`, ….
pub open spec fn spec_aside_suffix(index: u64) -> Seq<char> {
    if index == 0 {
        old_suffix()
    } else {
        old_suffix() + decimal(index as nat)
    }
}

pub fn aside_suffix(index: u64) -> (suffix: String)
    ensures
        suffix@ == spec_aside_suffix(index),
{
    let mut out = vec!['.', 'o', 'l', 'd'];
    assert(out@ =~= old_suffix());
    if index != 0 {
        push_decimal(&mut out, index);
    }
    string_of(out.as_slice())
}

/// `path` with `suffix` appended to its file name (to the whole path when it is empty).
pub open spec fn spec_with_suffix(path: Seq<Seq<char>>, suffix: Seq<char>) -> Seq<Seq<char>> {
    if path.len() == 0 {
        seq![suffix]
    } else {
        path.update(path.len() - 1, path.last() + suffix)
    }
}

pub fn with_suffix(path: &Vec<String>, suffix: &str) -> (r: Vec<String>)
    ensures
        strings_view(r@) == spec_with_suffix(strings_view(path@), suffix@),
{
    let mut out: Vec<String> = Vec::new();
    let n = path.len();
    if n == 0 {
        out.push(string_of(chars_of(suffix).as_slice()));
        assert(strings_view(out@) =~= seq![suffix@]);
        return out;
    }
    let mut i: usize = 0;
    while i + 1 < n
        invariant
            n == path@.len(),
            n > 0,
            i + 1 <= n,
            strings_view(out@) =~= strings_view(path@).take(i as int),
        decreases n - i,
    {
        let ghost before = out@;
        let piece = path[i].clone();
        out.push(piece);
        assert(strings_view(out@) =~= strings_view(before).push(path@[i as int]@));
        i = i + 1;
    }
    let mut last = chars_of(path[n - 1].as_str());
    let tail = chars_of(suffix);
    let mut j: usize = 0;
    let ghost start = last@;
    while j < tail.len()
        invariant
            j <= tail@.len(),
            last@ =~= start + tail@.take(j as int),
        decreases tail@.len() - j,
    {
        last.push(tail[j]);
        j = j + 1;
    }
    assert(tail@.take(tail@.len() as int) =~= tail@);
    assert(i + 1 == n);
    let ghost before = out@;
    let piece = string_of(last.as_slice());
    assert(piece@ == strings_view(path@).last() + suffix@);
    out.push(piece);
    assert(strings_view(out@) =~= strings_view(before).push(piece@));
    assert(strings_view(out@) =~= spec_with_suffix(strings_view(path@), suffix@));
    out
}

/// `.old`.
pub open spec fn old_suffix() -> Seq<char> {
    seq!['.', 'o', 'l', 'd']
}

/// `at` is the last place `.old` occurs in `name`.
pub open spec fn last_old_at(name: Seq<char>, at: int) -> bool {
    &&& occurs_at(name, old_suffix(), at)
    &&& forall|j: int| at < j && occurs_at(name, old_suffix(), j) ==> false
}

/// A name a moved-aside file gets: `<name>.old` or `<name>.old<digits>`, with
/// something before the suffix.
pub open spec fn spec_is_leftover_name(path: Seq<Seq<char>>) -> bool {
    &&& path.len() > 0
    &&& exists|at: int|
        #![trigger last_old_at(path.last(), at)]
        last_old_at(path.last(), at) && at > 0 && all_digits(path.last().skip(at + 4))
}

/// Whether `path` names a file moved aside by an install.
pub fn is_leftover_name(path: &Vec<String>) -> (r: bool)
    ensures
        r == spec_is_leftover_name(strings_view(path@)),
{
    if path.len() == 0 {
        return false;
    }
    let name = chars_of(path[path.len() - 1].as_str());
    let ghost pv = strings_view(path@);
    let ghost last = pv.last();
    assert(last == name@);
    let old = vec!['.', 'o', 'l', 'd'];
    let ghost lit = old_suffix();
    assert(old@ =~= lit);
    if name.len() < 4 {
        assert forall|at: int| !#[trigger] last_old_at(last, at) by {}
        return false;
    }
    let mut at: usize = name.len() - 4;
    loop
        invariant
            old@ == lit,
            lit == old_suffix(),
            lit.len() == 4,
            name@ == last,
            strings_view(path@).len() > 0,
            last == strings_view(path@).last(),
            at + 4 <= name@.len(),
            forall|j: int| at < j && occurs_at(last, lit, j) ==> false,
        ensures
            at + 4 <= name@.len(),
            occurs_at(last, lit, at as int),
            forall|j: int| at < j && occurs_at(last, lit, j) ==> false,
        decreases at,
    {
        if occurs(name.as_slice(), old.as_slice(), at) {
            break;
        }
        if at == 0 {
            assert forall|j: int| !#[trigger] last_old_at(last, j) by {
                if last_old_at(last, j) {
                    assert(occurs_at(last, lit, j));
                }
            }
            return false;
        }
        at = at - 1;
    }
    assert(last_old_at(last, at as int));
    assert forall|j: int| last_old_at(last, j) implies j == at by {
        if j < at {
            assert(occurs_at(last, lit, at as int));
        }
    }
    if at == 0 {
        return false;
    }
    let mut k = at + 4;
    while k < name.len()
        invariant
            at + 4 <= k <= name@.len(),
            name@ == last,
            at > 0,
            strings_view(path@).len() > 0,
            last == strings_view(path@).last(),
            forall|j: int| last_old_at(last, j) ==> j == at,
            forall|m: int| at + 4 <= m < k ==> crate::chars::is_ascii_digit(#[trigger] name@[m]),
        decreases name@.len() - k,
    {
        if name[k] < '0' || name[k] > '9' {
            assert(!crate::chars::is_ascii_digit(last.skip(at + 4)[k - at - 4]));
            return false;
        }
        k = k + 1;
    }
    assert(all_digits(last.skip(at + 4))) by {
        assert forall|m: int| 0 <= m < last.skip(at + 4).len() implies crate::chars::is_ascii_digit(
            #[trigger] last.skip(at + 4)[m],
        ) by {
            assert(last.skip(at + 4)[m] == name@[at + 4 + m]);
        }
    }
    true
}

/// The line recording `path` in the leftovers list: its components joined by `/`.
pub fn leftover_line(path: &Vec<String>) -> (line: String)
    ensures
        line@ == join(strings_view(path@), '/'),
{
    let out = join_strings(path.as_slice(), '/');
    string_of(out.as_slice())
}

/// The paths recorded by `ls`, in order: each line trimmed and read as an archive
/// entry, keeping only safe relative `*.old` paths.
pub open spec fn recorded_paths(ls: Seq<Seq<char>>) -> Seq<Seq<Seq<char>>>
    decreases ls.len(),
{
    if ls.len() == 0 {
        Seq::empty()
    } else {
        let earlier = recorded_paths(ls.drop_last());
        match spec_entry_path(trim(ls.last())) {
            Ok(Some(path)) => if spec_is_leftover_name(path) {
                earlier.push(path)
            } else {
                earlier
            },
            _ => earlier,
        }
    }
}

/// Leftovers recorded in `text`; lines that are not a safe relative `*.old` path are
/// dropped so the list can never point outside the install directory.
pub fn parse_leftovers(text: &str) -> (r: Vec<Vec<String>>)
    ensures
        r@.map_values(|p: Vec<String>| strings_view(p@)) == recorded_paths(lines(text@)),
        forall|i: int| 0 <= i < r@.len() ==> safe_path(strings_view(#[trigger] r@[i]@)),
{
    let chars = chars_of(text);
    let all = lines_of(chars.as_slice());
    let ghost ls = lines(text@);
    let mut out: Vec<Vec<String>> = Vec::new();
    let mut i: usize = 0;
    assert(ls.take(0) =~= Seq::<Seq<char>>::empty());
    while i < all.len()
        invariant
            i <= all@.len(),
            all@.map_values(|p: Vec<char>| p@) == ls,
            out@.map_values(|p: Vec<String>| strings_view(p@)) == recorded_paths(
                ls.take(i as int),
            ),
            forall|k: int| 0 <= k < out@.len() ==> safe_path(strings_view(#[trigger] out@[k]@)),
        decreases all@.len() - i,
    {
        assert(all@[i as int]@ == ls[i as int]);
        assert(ls.take(i + 1).drop_last() =~= ls.take(i as int));
        assert(ls.take(i + 1).last() == ls[i as int]);
        let line = trim_space(all[i].as_slice());
        let line_text = string_of(line.as_slice());
        let ghost before = out@;
        match entry_path(line_text.as_str()) {
            Ok(Some(path)) => {
                if is_leftover_name(&path) {
                    out.push(path);
                    assert(out@.map_values(|p: Vec<String>| strings_view(p@)) =~= before.map_values(
                        |p: Vec<String>| strings_view(p@),
                    ).push(strings_view(out@[before.len() as int]@)));
                }
            },
            _ => {},
        }
        i = i + 1;
    }
    assert(ls.take(all@.len() as int) =~= ls);
    out
}

/// The text of the leftovers list: one line per path, each ended by a line feed.
pub open spec fn leftovers_text_of(paths: Seq<Seq<Seq<char>>>) -> Seq<char>
    decreases paths.len(),
{
    if paths.len() == 0 {
        Seq::empty()
    } else {
        leftovers_text_of(paths.drop_last()) + join(paths.last(), '/') + seq!['\n']
    }
}

/// What the leftovers file holds for `paths`.
pub fn leftovers_text(paths: &Vec<Vec<String>>) -> (text: String)
    ensures
        text@ == leftovers_text_of(paths@.map_values(|p: Vec<String>| strings_view(p@))),
{
    let ghost pv = paths@.map_values(|p: Vec<String>| strings_view(p@));
    let mut out: Vec<char> = Vec::new();
    let mut i: usize = 0;
    assert(pv.take(0) =~= Seq::<Seq<Seq<char>>>::empty());
    while i < paths.len()
        invariant
            i <= paths@.len(),
            pv == paths@.map_values(|p: Vec<String>| strings_view(p@)),
            out@ == leftovers_text_of(pv.take(i as int)),
        decreases paths@.len() - i,
    {
        let line = chars_of(leftover_line(&paths[i]).as_str());
        let ghost before = out@;
        let mut j: usize = 0;
        while j < line.len()
            invariant
                j <= line@.len(),
                out@ =~= before + line@.take(j as int),
            decreases line@.len() - j,
        {
            out.push(line[j]);
            j = j + 1;
        }
        out.push('\n');
        proof {
            assert(line@.take(line@.len() as int) =~= line@);
            assert(pv.take(i + 1).drop_last() =~= pv.take(i as int));
            assert(pv.take(i + 1).last() == pv[i as int]);
        }
        assert(out@ =~= leftovers_text_of(pv.take(i + 1)));
        i = i + 1;
    }
    assert(pv.take(paths@.len() as int) =~= pv);
    string_of(out.as_slice())
}

} // verus!

verus! {

// ---------------------------------------------------------------------------------
// The leftovers list reads back what was written into it

/// No piece holds a character of `seps`.
pub open spec fn free_of(parts: Seq<Seq<char>>, seps: Seq<char>) -> bool {
    forall|i: int, j: int|
        0 <= i < parts.len() && 0 <= j < parts[i].len() ==> !seps.contains(#[trigger] parts[i][j])
}

proof fn lemma_split_append_plain(s: Seq<char>, t: Seq<char>, seps: Seq<char>)
    requires
        forall|j: int| 0 <= j < t.len() ==> !seps.contains(#[trigger] t[j]),
    ensures
        split_on(s + t, seps) == split_on(s, seps).update(
            split_on(s, seps).len() - 1,
            split_on(s, seps).last() + t,
        ),
    decreases t.len(),
{
    lemma_split_on_nonempty(s, seps);
    if t.len() == 0 {
        assert(s + t =~= s);
        assert(split_on(s, seps).last() + t =~= split_on(s, seps).last());
        assert(split_on(s, seps).update(split_on(s, seps).len() - 1, split_on(s, seps).last())
            =~= split_on(s, seps));
    } else {
        let u = t.drop_last();
        assert forall|j: int| 0 <= j < u.len() implies !seps.contains(#[trigger] u[j]) by {
            assert(u[j] == t[j]);
        }
        lemma_split_append_plain(s, u, seps);
        assert((s + t).drop_last() =~= s + u);
        assert((s + t).last() == t.last());
        assert(!seps.contains(t.last()));
        lemma_split_on_nonempty(s + u, seps);
        let p = split_on(s, seps);
        let q = split_on(s + u, seps);
        assert(q == p.update(p.len() - 1, p.last() + u));
        assert(q.len() == p.len());
        assert(q.last() == p.last() + u);
        assert(split_on(s + t, seps) == q.update(q.len() - 1, q.last().push(t.last())));
        assert((p.last() + u).push(t.last()) =~= p.last() + t);
        assert(split_on(s + t, seps) =~= split_on(s, seps).update(
            split_on(s, seps).len() - 1,
            split_on(s, seps).last() + t,
        ));
    }
}

proof fn lemma_split_push_sep(s: Seq<char>, c: char, seps: Seq<char>)
    requires
        seps.contains(c),
    ensures
        split_on(s.push(c), seps) == split_on(s, seps).push(Seq::empty()),
{
    assert(s.push(c).drop_last() =~= s);
}

proof fn lemma_join_push(parts: Seq<Seq<char>>, sep: char)
    requires
        parts.len() >= 2,
    ensures
        join(parts, sep) == join(parts.drop_last(), sep).push(sep) + parts.last(),
{
    assert(join(parts.drop_last(), sep) + seq![sep] =~= join(parts.drop_last(), sep).push(sep));
}

proof fn lemma_split_join(parts: Seq<Seq<char>>, sep: char, seps: Seq<char>)
    requires
        parts.len() >= 1,
        free_of(parts, seps),
        seps.contains(sep),
    ensures
        split_on(join(parts, sep), seps) == parts,
    decreases parts.len(),
{
    if parts.len() == 1 {
        assert forall|j: int| 0 <= j < parts[0].len() implies !seps.contains(#[trigger] parts[0][j]) by {}
        lemma_split_append_plain(Seq::empty(), parts[0], seps);
        assert(Seq::<char>::empty() + parts[0] =~= parts[0]);
        assert(split_on(Seq::<char>::empty(), seps) =~= seq![Seq::<char>::empty()]);
        assert(seq![Seq::<char>::empty()].update(0, Seq::<char>::empty() + parts[0]) =~= parts);
    } else {
        let dl = parts.drop_last();
        assert(free_of(dl, seps)) by {
            assert forall|i: int, j: int| 0 <= i < dl.len() && 0 <= j < dl[i].len() implies !seps.contains(
                #[trigger] dl[i][j],
            ) by {
                assert(dl[i] == parts[i]);
            }
        }
        lemma_split_join(dl, sep, seps);
        lemma_join_push(parts, sep);
        let last = parts.last();
        assert forall|j: int| 0 <= j < last.len() implies !seps.contains(#[trigger] last[j]) by {
            assert(last == parts[parts.len() - 1]);
        }
        lemma_split_append_plain(join(dl, sep).push(sep), last, seps);
        lemma_split_push_sep(join(dl, sep), sep, seps);
        assert(Seq::<char>::empty() + last =~= last);
        assert(dl.push(Seq::empty()).update(dl.len() as int, Seq::<char>::empty() + last) =~= parts);
    }
}

/// A path that the leftovers list records faithfully: safe, a moved-aside name,
/// not starting with white space, and free of line feeds.
pub open spec fn recordable(path: Seq<Seq<char>>) -> bool {
    &&& path.len() > 0
    &&& safe_path(path)
    &&& spec_is_leftover_name(path)
    &&& !is_space(path[0][0])
    &&& forall|i: int| 0 <= i < path.len() ==> !(#[trigger] path[i]).contains('\n')
}

proof fn lemma_join_first_last(parts: Seq<Seq<char>>, sep: char)
    requires
        parts.len() >= 1,
        parts[0].len() > 0,
        parts.last().len() > 0,
    ensures
        join(parts, sep).len() > 0,
        join(parts, sep)[0] == parts[0][0],
        join(parts, sep).last() == parts.last().last(),
    decreases parts.len(),
{
    if parts.len() >= 2 {
        let dl = parts.drop_last();
        if dl.len() >= 1 && dl.last().len() > 0 {
            lemma_join_first_last(dl, sep);
        } else {
            lemma_join_first_only(dl, sep);
        }
    }
}

proof fn lemma_join_first_only(parts: Seq<Seq<char>>, sep: char)
    requires
        parts.len() >= 1,
        parts[0].len() > 0,
    ensures
        join(parts, sep).len() > 0,
        join(parts, sep)[0] == parts[0][0],
    decreases parts.len(),
{
    if parts.len() >= 2 {
        lemma_join_first_only(parts.drop_last(), sep);
    }
}

proof fn lemma_join_no_char(parts: Seq<Seq<char>>, sep: char, c: char)
    requires
        sep != c,
        forall|i: int| 0 <= i < parts.len() ==> !(#[trigger] parts[i]).contains(c),
    ensures
        !join(parts, sep).contains(c),
    decreases parts.len(),
{
    if parts.len() >= 2 {
        let dl = parts.drop_last();
        assert forall|i: int| 0 <= i < dl.len() implies !(#[trigger] dl[i]).contains(c) by {
            assert(dl[i] == parts[i]);
        }
        lemma_join_no_char(dl, sep, c);
        let whole = join(parts, sep);
        let left = join(dl, sep) + seq![sep];
        assert(!parts[parts.len() - 1].contains(c));
        if whole.contains(c) {
            let k = choose|k: int| 0 <= k < whole.len() && whole[k] == c;
            if k < join(dl, sep).len() {
                assert(whole[k] == join(dl, sep)[k]);
            } else if k == join(dl, sep).len() {
                assert(whole[k] == sep);
            } else {
                assert(whole[k] == parts.last()[k - left.len()]);
            }
        }
    } else if parts.len() == 1 {
        assert(!parts[0].contains(c));
    }
}

proof fn lemma_kept_all(parts: Seq<Seq<char>>)
    requires
        safe_path(parts),
    ensures
        kept_parts(parts) == parts,
    decreases parts.len(),
{
    if parts.len() > 0 {
        let dl = parts.drop_last();
        assert(safe_path(dl)) by {
            assert forall|i: int| 0 <= i < dl.len() implies safe_part(#[trigger] dl[i]) by {
                assert(dl[i] == parts[i]);
            }
        }
        lemma_kept_all(dl);
        assert(safe_part(parts[parts.len() - 1]));
        assert(dl.push(parts.last()) =~= parts);
    }
}

proof fn lemma_leftover_name_ends(path: Seq<Seq<char>>)
    requires
        spec_is_leftover_name(path),
    ensures
        path.last().len() > 0,
        path.last().last() == 'd' || crate::chars::is_ascii_digit(path.last().last()),
{
    let name = path.last();
    let at = choose|at: int| #![trigger last_old_at(name, at)] last_old_at(name, at) && at > 0
        && all_digits(name.skip(at + 4));
    assert(name.subrange(at, at + 4) == old_suffix());
    assert(name.subrange(at, at + 4)[3] == 'd');
    if name.len() > at + 4 {
        assert(name.skip(at + 4)[name.len() - at - 5] == name.last());
    }
}

proof fn lemma_entry_path_of_join(path: Seq<Seq<char>>)
    requires
        recordable(path),
    ensures
        spec_entry_path(join(path, '/')) == Ok::<Option<Seq<Seq<char>>>, UpdateError>(Some(path)),
{
    let seps = seq!['/', '\\'];
    assert(seps.contains('/')) by {
        assert(seps[0] == '/');
    }
    assert(free_of(path, seps)) by {
        assert forall|i: int, j: int| 0 <= i < path.len() && 0 <= j < path[i].len() implies !seps.contains(
            #[trigger] path[i][j],
        ) by {
            assert(safe_part(path[i]));
            if seps.contains(path[i][j]) {
                let k = choose|k: int| 0 <= k < seps.len() && seps[k] == path[i][j];
                if k == 0 {
                    assert(path[i].contains('/'));
                } else {
                    assert(path[i].contains('\\'));
                }
            }
        }
    }
    lemma_split_join(path, '/', seps);
    assert(safe_part(path[0]));
    lemma_join_first_only(path, '/');
    let name = join(path, '/');
    assert(name[0] != '/') by {
        assert(path[0].contains(path[0][0]));
    }
    assert(name[0] != '\\') by {
        assert(path[0].contains(path[0][0]));
    }
    assert(!exists|i: int| 0 <= i < path.len() && refused_part(#[trigger] path[i])) by {
        assert forall|i: int| 0 <= i < path.len() implies !refused_part(#[trigger] path[i]) by {
            assert(safe_part(path[i]));
        }
    }
    lemma_kept_all(path);
}

proof fn lemma_text_split(paths: Seq<Seq<Seq<char>>>)
    requires
        forall|i: int| 0 <= i < paths.len() ==> recordable(#[trigger] paths[i]),
    ensures
        split_on(leftovers_text_of(paths), seq!['\n']) == Seq::new(
            paths.len(),
            |i: int| join(paths[i], '/'),
        ).push(Seq::empty()),
    decreases paths.len(),
{
    let nl = seq!['\n'];
    assert(nl.contains('\n')) by {
        assert(nl[0] == '\n');
    }
    if paths.len() == 0 {
        assert(leftovers_text_of(paths) =~= Seq::<char>::empty());
        assert(Seq::new(0, |i: int| join(paths[i], '/')).push(Seq::<char>::empty()) =~= seq![
            Seq::<char>::empty(),
        ]);
    } else {
        let dl = paths.drop_last();
        assert forall|i: int| 0 <= i < dl.len() implies recordable(#[trigger] dl[i]) by {
            assert(dl[i] == paths[i]);
        }
        lemma_text_split(dl);
        let last = paths.last();
        assert(recordable(paths[paths.len() - 1]));
        let line = join(last, '/');
        lemma_join_no_char(last, '/', '\n');
        assert forall|j: int| 0 <= j < line.len() implies !nl.contains(#[trigger] line[j]) by {
            if nl.contains(line[j]) {
                let k = choose|k: int| 0 <= k < nl.len() && nl[k] == line[j];
                assert(line.contains('\n'));
            }
        }
        let before = leftovers_text_of(dl);
        assert(leftovers_text_of(paths) =~= (before + line).push('\n'));
        lemma_split_push_sep(before + line, '\n', nl);
        lemma_split_append_plain(before, line, nl);
        let prev = Seq::new(dl.len(), |i: int| join(dl[i], '/'));
        assert(Seq::<char>::empty() + line =~= line);
        assert(prev.push(Seq::empty()).update(prev.len() as int, Seq::<char>::empty() + line)
            =~= Seq::new(paths.len(), |i: int| join(paths[i], '/')));
    }
}

proof fn lemma_recorded_lines(paths: Seq<Seq<Seq<char>>>)
    requires
        forall|i: int| 0 <= i < paths.len() ==> recordable(#[trigger] paths[i]),
    ensures
        recorded_paths(Seq::new(paths.len(), |i: int| join(paths[i], '/'))) == paths,
    decreases paths.len(),
{
    if paths.len() > 0 {
        let dl = paths.drop_last();
        assert forall|i: int| 0 <= i < dl.len() implies recordable(#[trigger] dl[i]) by {
            assert(dl[i] == paths[i]);
        }
        lemma_recorded_lines(dl);
        let ls = Seq::new(paths.len(), |i: int| join(paths[i], '/'));
        assert(ls.drop_last() =~= Seq::new(dl.len(), |i: int| join(dl[i], '/')));
        let last = paths.last();
        assert(recordable(paths[paths.len() - 1]));
        let line = join(last, '/');
        assert(safe_part(last[0]));
        lemma_leftover_name_ends(last);
        lemma_join_first_last(last, '/');
        assert(trim_start_space(line) == line);
        assert(trim_end_space(line) == line);
        lemma_entry_path_of_join(last);
        assert(dl.push(last) =~= paths);
    }
}

/// Whatever paths an install records as leftovers, the next start reads back exactly
/// those paths, in order (for paths it can record at all: safe relative `*.old` paths
/// that do not start with white space or hold a line feed).
pub proof fn law_leftovers_round_trip(paths: Seq<Seq<Seq<char>>>)
    requires
        forall|i: int| 0 <= i < paths.len() ==> recordable(#[trigger] paths[i]),
    ensures
        recorded_paths(lines(leftovers_text_of(paths))) == paths,
{
    let text = leftovers_text_of(paths);
    lemma_text_split(paths);
    let parts = split_on(text, seq!['\n']);
    let ls = Seq::new(paths.len(), |i: int| join(paths[i], '/'));
    assert forall|i: int| 0 <= i < ls.len() implies strip_cr(#[trigger] ls[i]) == ls[i] by {
        assert(recordable(paths[i]));
        lemma_leftover_name_ends(paths[i]);
        lemma_join_first_last(paths[i], '/');
        assert(safe_part(paths[i][0]));
    }
    assert(lines(text) =~= ls);
    lemma_recorded_lines(paths);
}

// ---------------------------------------------------------------------------------
// Recording what an install moved aside

/// The leftovers list after an install: the paths already recorded, then each path
/// moved aside that the list does not hold yet, in the order they were moved.
pub open spec fn merged(known: Seq<Seq<Seq<char>>>, asides: Seq<Seq<Seq<char>>>) -> Seq<Seq<Seq<char>>>
    decreases asides.len(),
{
    if asides.len() == 0 {
        known
    } else {
        let earlier = merged(known, asides.drop_last());
        if earlier.contains(asides.last()) {
            earlier
        } else {
            earlier.push(asides.last())
        }
    }
}

/// The list to record once the files moved aside (`asides`, relative to the install
/// directory) are added to the `known` leftovers.
pub fn merge_leftovers(known: Vec<Vec<String>>, asides: &Vec<Vec<String>>) -> (r: Vec<Vec<String>>)
    ensures
        paths_view(r@) == merged(paths_view(known@), paths_view(asides@)),
{
    let ghost kv = paths_view(known@);
    let ghost av = paths_view(asides@);
    let mut out = known;
    let mut i: usize = 0;
    assert(av.take(0) =~= Seq::<Seq<Seq<char>>>::empty());
    while i < asides.len()
        invariant
            i <= asides@.len(),
            av == paths_view(asides@),
            paths_view(out@) == merged(kv, av.take(i as int)),
        decreases asides@.len() - i,
    {
        proof {
            assert(av.take(i + 1).drop_last() =~= av.take(i as int));
            assert(av.take(i + 1).last() == av[i as int]);
            assert(av[i as int] == strings_view(asides@[i as int]@));
        }
        if !holds_path(&out, &asides[i]) {
            let ghost before = out@;
            out.push(asides[i].clone());
            proof {
                assert(out@[before.len() as int]@ == asides@[i as int]@);
                assert(paths_view(out@) =~= paths_view(before).push(av[i as int]));
            }
        }
        i = i + 1;
    }
    assert(av.take(asides@.len() as int) =~= av);
    out
}

/// Recording keeps every path already listed and lists every path moved aside, lists
/// nothing else, and never lists a path twice when the recorded list did not.
pub proof fn law_merge_records_each_path_once(known: Seq<Seq<Seq<char>>>, asides: Seq<Seq<Seq<char>>>)
    ensures
        forall|i: int| 0 <= i < known.len() ==> merged(known, asides).contains(#[trigger] known[i]),
        forall|i: int| 0 <= i < asides.len() ==> merged(known, asides).contains(#[trigger] asides[i]),
        forall|i: int|
            0 <= i < merged(known, asides).len() ==> known.contains(#[trigger] merged(known, asides)[i])
                || asides.contains(merged(known, asides)[i]),
        (forall|i: int, j: int| 0 <= i < j < known.len() ==> known[i] != known[j]) ==> (forall|
            i: int,
            j: int,
        | 0 <= i < j < merged(known, asides).len() ==> merged(known, asides)[i] != merged(
            known,
            asides,
        )[j]),
    decreases asides.len(),
{
    if asides.len() > 0 {
        let rest = asides.drop_last();
        law_merge_records_each_path_once(known, rest);
        let earlier = merged(known, rest);
        let now = merged(known, asides);
        assert forall|i: int| 0 <= i < known.len() implies now.contains(#[trigger] known[i]) by {
            assert(earlier.contains(known[i]));
            let k = choose|k: int| 0 <= k < earlier.len() && earlier[k] == known[i];
            assert(now[k] == earlier[k]);
        }
        assert forall|i: int| 0 <= i < asides.len() implies now.contains(#[trigger] asides[i]) by {
            if i < rest.len() {
                assert(rest[i] == asides[i]);
                assert(earlier.contains(rest[i]));
                let k = choose|k: int| 0 <= k < earlier.len() && earlier[k] == rest[i];
                assert(now[k] == earlier[k]);
            } else {
                assert(asides[i] == asides.last());
                if !earlier.contains(asides.last()) {
                    assert(now[earlier.len() as int] == asides.last());
                }
            }
        }
        assert forall|i: int| 0 <= i < now.len() implies known.contains(#[trigger] now[i])
            || asides.contains(now[i]) by {
            if i < earlier.len() {
                assert(now[i] == earlier[i]);
                if rest.contains(earlier[i]) {
                    let k = choose|k: int| 0 <= k < rest.len() && rest[k] == earlier[i];
                    assert(asides[k] == rest[k]);
                }
            } else {
                assert(now[i] == asides.last());
                assert(asides[asides.len() - 1] == asides.last());
            }
        }
    }
}

// ---------------------------------------------------------------------------------
// What is moved aside is found again

/// The decimal digits of a number are digits.
proof fn lemma_decimal_digits(n: nat)
    ensures
        decimal(n).len() > 0,
        all_digits(decimal(n)),
    decreases n,
{
    if n >= 10 {
        lemma_decimal_digits(n / 10);
        let d = decimal(n / 10).push(crate::chars::digit_char(n % 10));
        assert forall|i: int| 0 <= i < d.len() implies crate::chars::is_ascii_digit(#[trigger] d[i]) by {
            if i < decimal(n / 10).len() {
                assert(d[i] == decimal(n / 10)[i]);
            }
        }
    }
}

/// A file moved aside under any of the suffixes tried is recognised by the next start
/// as a leftover to delete, whatever its name was.
pub proof fn law_moved_aside_files_are_leftovers(path: Seq<Seq<char>>, index: u64)
    requires
        path.len() > 0,
        path.last().len() > 0,
    ensures
        spec_is_leftover_name(spec_with_suffix(path, spec_aside_suffix(index))),
{
    let name = path.last();
    let suffix = spec_aside_suffix(index);
    let digits = if index == 0 {
        Seq::<char>::empty()
    } else {
        decimal(index as nat)
    };
    if index != 0 {
        lemma_decimal_digits(index as nat);
    }
    assert(suffix =~= old_suffix() + digits);
    let moved = spec_with_suffix(path, suffix);
    assert(moved.last() == name + suffix);
    let full = name + suffix;
    let at = name.len() as int;
    assert(full.subrange(at, at + 4) =~= old_suffix());
    assert(occurs_at(full, old_suffix(), at));
    assert forall|j: int| at < j && occurs_at(full, old_suffix(), j) implies false by {
        assert(full.subrange(j, j + 4)[0] == full[j]);
        assert(old_suffix()[0] == '.');
        if j < at + 4 {
            assert(full[j] == old_suffix()[j - at]);
        } else {
            assert(full[j] == digits[j - at - 4]);
            assert(crate::chars::is_ascii_digit(digits[j - at - 4]));
        }
    }
    assert(last_old_at(full, at));
    assert(full.skip(at + 4) =~= digits);
    assert(all_digits(full.skip(at + 4)));
}

} // verus!
