//! Release versions: parsing tags such as `v1.2.3-beta` and deciding which is newer.
use vstd::prelude::*;

use crate::chars::{
    all_digits, chars_of, digits_value, is_ascii_digit, is_space, lemma_split_on_nonempty,
    split_chars, split_on, trim, trim_end_space, trim_space, trim_start_in, trim_start_set,
    trim_start_space,
};

verus! {

/// The part of a tag that carries the numbers: white space trimmed, leading `v`/`V`
/// dropped, and everything from the first `-` or `+` on cut off.
pub open spec fn version_core(text: Seq<char>) -> Seq<char> {
    split_on(trim_start_in(trim(text), seq!['v', 'V']), seq!['-', '+'])[0]
}

/// A component that `u64::from_str` accepts once no sign can be in it.
pub open spec fn component_ok(part: Seq<char>) -> bool {
    &&& part.len() > 0
    &&& all_digits(part)
    &&& digits_value(part) <= u64::MAX
}

/// The numeric components of a version, when every `.`-separated piece of the core is
/// a number that fits in a `u64`.
pub open spec fn spec_parse_version(text: Seq<char>) -> Option<Seq<u64>> {
    let core = version_core(text);
    let parts = split_on(core, seq!['.']);
    if core.len() > 0 && forall|i: int| 0 <= i < parts.len() ==> component_ok(#[trigger] parts[i]) {
        Some(parts.map_values(|part: Seq<char>| digits_value(part) as u64))
    } else {
        None
    }
}

/// Component `index` of a version, a missing one counting as zero.
pub open spec fn component(parts: Seq<u64>, index: int) -> int {
    if 0 <= index < parts.len() {
        parts[index] as int
    } else {
        0
    }
}

/// Whether `a` is greater than `b` at the first component from `index` on where the two
/// differ.
pub open spec fn newer_from(a: Seq<u64>, b: Seq<u64>, index: int) -> bool
    decreases a.len() + b.len() - index,
{
    if index < 0 || (index >= a.len() && index >= b.len()) {
        false
    } else if component(a, index) != component(b, index) {
        component(a, index) > component(b, index)
    } else {
        newer_from(a, b, index + 1)
    }
}

/// Numeric, component-wise comparison, missing components counting as zero.
pub open spec fn version_newer(a: Seq<u64>, b: Seq<u64>) -> bool {
    newer_from(a, b, 0)
}

/// `candidate` names a newer release than `current`; a tag that does not parse is
/// never newer, and nothing is newer than a version that does not parse.
pub open spec fn spec_is_newer(candidate: Seq<char>, current: Seq<char>) -> bool {
    match (spec_parse_version(candidate), spec_parse_version(current)) {
        (Some(a), Some(b)) => version_newer(a, b),
        _ => false,
    }
}

proof fn lemma_digits_prefix(s: Seq<char>, k: int)
    requires
        all_digits(s),
        0 <= k <= s.len(),
    ensures
        digits_value(s.take(k)) <= digits_value(s),
    decreases s.len(),
{
    if k < s.len() {
        let t = s.drop_last();
        assert(all_digits(t));
        assert(t.take(k) =~= s.take(k));
        lemma_digits_prefix(t, k);
    } else {
        assert(s.take(k) =~= s);
    }
}

/// The value of a run of decimal digits, when it is one and fits in a `u64`.
pub fn parse_component(part: &[char]) -> (r: Option<u64>)
    ensures
        r == (if component_ok(part@) {
            Some(digits_value(part@) as u64)
        } else {
            None::<u64>
        }),
{
    if part.len() == 0 {
        return None;
    }
    let mut value: u64 = 0;
    let mut i: usize = 0;
    assert(part@.take(0) =~= Seq::<char>::empty());
    while i < part.len()
        invariant
            i <= part@.len(),
            all_digits(part@.take(i as int)),
            value as nat == digits_value(part@.take(i as int)),
        decreases part@.len() - i,
    {
        let c = part[i];
        proof {
            assert(part@.take(i + 1).drop_last() =~= part@.take(i as int));
        }
        if c < '0' || c > '9' {
            assert(!is_ascii_digit(part@[i as int]));
            return None;
        }
        let d = (c as u32 - 48) as u64;
        proof {
            assert(all_digits(part@.take(i + 1)));
        }
        if value > (u64::MAX - d) / 10 {
            proof {
                assert(digits_value(part@.take(i + 1)) == value * 10 + d);
                assert(value * 10 + d > u64::MAX) by (nonlinear_arith)
                    requires
                        value > (u64::MAX - d) / 10,
                        d <= 9,
                ;
                if all_digits(part@) {
                    lemma_digits_prefix(part@, i + 1);
                }
            }
            return None;
        }
        proof {
            assert(value * 10 + d <= u64::MAX) by (nonlinear_arith)
                requires
                    value <= (u64::MAX - d) / 10,
                    d <= 9,
            ;
        }
        value = value * 10 + d;
        i = i + 1;
    }
    assert(part@.take(part@.len() as int) =~= part@);
    Some(value)
}

/// Numeric components of a version such as `v1.2.3-beta`; the suffix is ignored.
pub fn parse_version(text: &str) -> (r: Option<Vec<u64>>)
    ensures
        match r {
            Some(parts) => spec_parse_version(text@) == Some(parts@),
            None => spec_parse_version(text@) is None,
        },
{
    let chars = chars_of(text);
    let trimmed = trim_space(chars.as_slice());
    let vees = ['v', 'V'];
    let bare = trim_start_set(trimmed.as_slice(), &vees);
    let cuts = ['-', '+'];
    let pieces = split_chars(bare.as_slice(), &cuts);
    proof {
        assert(vees@ =~= seq!['v', 'V']);
        assert(cuts@ =~= seq!['-', '+']);
        lemma_split_on_nonempty(bare@, seq!['-', '+']);
        assert(pieces@[0]@ == pieces@.map_values(|p: Vec<char>| p@)[0]);
    }
    let core = &pieces[0];
    let ghost score = version_core(text@);
    assert(core@ == score);
    if core.len() == 0 {
        return None;
    }
    let dots = ['.'];
    let parts = split_chars(core.as_slice(), &dots);
    proof {
        assert(dots@ =~= seq!['.']);
    }
    let ghost sparts = split_on(score, seq!['.']);
    let mut values: Vec<u64> = Vec::new();
    let mut i: usize = 0;
    while i < parts.len()
        invariant
            i <= parts@.len(),
            parts@.map_values(|p: Vec<char>| p@) == sparts,
            score.len() > 0,
            score == version_core(text@),
            sparts == split_on(score, seq!['.']),
            forall|j: int| 0 <= j < i ==> component_ok(#[trigger] sparts[j]),
            values@ =~= sparts.take(i as int).map_values(
                |part: Seq<char>| digits_value(part) as u64,
            ),
        decreases parts@.len() - i,
    {
        assert(parts@[i as int]@ == sparts[i as int]);
        match parse_component(parts[i].as_slice()) {
            Some(v) => {
                values.push(v);
                i = i + 1;
            },
            None => {
                assert(!component_ok(sparts[i as int]));
                return None;
            },
        }
    }
    assert(sparts.take(sparts.len() as int) =~= sparts);
    Some(values)
}

/// Component `index`, zero past the end.
fn component_at(parts: &[u64], index: usize) -> (r: u64)
    ensures
        r as int == component(parts@, index as int),
{
    if index < parts.len() {
        parts[index]
    } else {
        0
    }
}

/// Whether the release `candidate` is newer than `current`, comparing the numeric
/// components of the two versions.
pub fn is_newer(candidate: &str, current: &str) -> (r: bool)
    ensures
        r == spec_is_newer(candidate@, current@),
{
    let a = match parse_version(candidate) {
        Some(parts) => parts,
        None => return false,
    };
    let b = match parse_version(current) {
        Some(parts) => parts,
        None => return false,
    };
    assert(spec_is_newer(candidate@, current@) == newer_from(a@, b@, 0));
    let length = if a.len() > b.len() {
        a.len()
    } else {
        b.len()
    };
    let mut index: usize = 0;
    while index < length
        invariant
            spec_is_newer(candidate@, current@) == newer_from(a@, b@, 0),
            length == (if a@.len() > b@.len() {
                a@.len()
            } else {
                b@.len()
            }),
            index <= length,
            newer_from(a@, b@, 0) == newer_from(a@, b@, index as int),
        decreases length - index,
    {
        let x = component_at(a.as_slice(), index);
        let y = component_at(b.as_slice(), index);
        if x != y {
            assert(newer_from(a@, b@, index as int) == (x > y));
            return x > y;
        }
        index = index + 1;
    }
    false
}

// ---------------------------------------------------------------------------------
// Laws of the comparison

proof fn lemma_newer_irreflexive(a: Seq<u64>, index: int)
    ensures
        !newer_from(a, a, index),
    decreases a.len() + a.len() - index,
{
    if index >= 0 && index < a.len() {
        lemma_newer_irreflexive(a, index + 1);
    }
}

proof fn lemma_newer_asymmetric(a: Seq<u64>, b: Seq<u64>, index: int)
    requires
        newer_from(a, b, index),
    ensures
        !newer_from(b, a, index),
    decreases a.len() + b.len() - index,
{
    if component(a, index) == component(b, index) {
        lemma_newer_asymmetric(a, b, index + 1);
    }
}

proof fn lemma_newer_transitive(a: Seq<u64>, b: Seq<u64>, c: Seq<u64>, index: int)
    requires
        newer_from(a, b, index),
        newer_from(b, c, index),
    ensures
        newer_from(a, c, index),
    decreases a.len() + b.len() + c.len() - index,
{
    if component(a, index) == component(b, index) && component(b, index) == component(c, index) {
        lemma_newer_transitive(a, b, c, index + 1);
    }
}

proof fn lemma_newer_zero_extension(a: Seq<u64>, b: Seq<u64>, index: int)
    requires
        index >= 0,
    ensures
        newer_from(a.push(0), b, index) == newer_from(a, b, index),
    decreases a.len() + 1 + b.len() - index,
{
    assert(component(a.push(0), index) == component(a, index));
    if index < a.len() + 1 || index < b.len() {
        lemma_newer_zero_extension(a, b, index + 1);
    }
}

/// No version is newer than itself.
pub proof fn law_is_newer_irreflexive(version: Seq<char>)
    ensures
        !spec_is_newer(version, version),
{
    if let Some(a) = spec_parse_version(version) {
        lemma_newer_irreflexive(a, 0);
    }
}

/// Of two versions, at most one is newer than the other.
pub proof fn law_is_newer_asymmetric(a: Seq<char>, b: Seq<char>)
    requires
        spec_is_newer(a, b),
    ensures
        !spec_is_newer(b, a),
{
    lemma_newer_asymmetric(
        spec_parse_version(a).unwrap(),
        spec_parse_version(b).unwrap(),
        0,
    );
}

/// A release newer than one that is newer than the running version is newer than the
/// running version too.
pub proof fn law_is_newer_transitive(a: Seq<char>, b: Seq<char>, c: Seq<char>)
    requires
        spec_is_newer(a, b),
        spec_is_newer(b, c),
    ensures
        spec_is_newer(a, c),
{
    lemma_newer_transitive(
        spec_parse_version(a).unwrap(),
        spec_parse_version(b).unwrap(),
        spec_parse_version(c).unwrap(),
        0,
    );
}

/// A trailing zero component changes nothing: `1.2.0` is neither newer nor older than
/// anything `1.2` is not.
pub proof fn law_trailing_zero_is_ignored(a: Seq<u64>, b: Seq<u64>)
    ensures
        version_newer(a.push(0), b) == version_newer(a, b),
        version_newer(b, a.push(0)) == version_newer(b, a),
{
    lemma_newer_zero_extension(a, b, 0);
    lemma_newer_zero_extension_right(b, a, 0);
}

proof fn lemma_newer_zero_extension_right(b: Seq<u64>, a: Seq<u64>, index: int)
    requires
        index >= 0,
    ensures
        newer_from(b, a.push(0), index) == newer_from(b, a, index),
    decreases a.len() + 1 + b.len() - index,
{
    assert(component(a.push(0), index) == component(a, index));
    if index < a.len() + 1 || index < b.len() {
        lemma_newer_zero_extension_right(b, a, index + 1);
    }
}

/// A string without separators is one piece.
proof fn lemma_split_plain(a: Seq<char>, seps: Seq<char>)
    requires
        forall|i: int| 0 <= i < a.len() ==> !seps.contains(#[trigger] a[i]),
    ensures
        split_on(a, seps) == seq![a],
    decreases a.len(),
{
    if a.len() > 0 {
        assert forall|i: int| 0 <= i < a.drop_last().len() implies !seps.contains(
            #[trigger] a.drop_last()[i],
        ) by {
            assert(a.drop_last()[i] == a[i]);
        }
        lemma_split_plain(a.drop_last(), seps);
        assert(!seps.contains(a[a.len() - 1]));
        assert(a.drop_last().push(a.last()) =~= a);
        assert(seq![a.drop_last()].update(0, a.drop_last().push(a.last())) =~= seq![a]);
    } else {
        assert(a =~= Seq::<char>::empty());
    }
}

/// A separator after a plain string ends the first piece there.
proof fn lemma_split_first(a: Seq<char>, b: Seq<char>, seps: Seq<char>)
    requires
        forall|i: int| 0 <= i < a.len() ==> !seps.contains(#[trigger] a[i]),
        b.len() > 0,
        seps.contains(b[0]),
    ensures
        split_on(a + b, seps).len() >= 2,
        split_on(a + b, seps)[0] == a,
    decreases b.len(),
{
    if b.len() == 1 {
        lemma_split_plain(a, seps);
        assert((a + b).drop_last() =~= a);
        assert((a + b).last() == b[0]);
    } else {
        let c = b.drop_last();
        lemma_split_first(a, c, seps);
        assert((a + b).drop_last() =~= a + c);
        assert((a + b).last() == b.last());
    }
}

/// Trimming the front never reaches past a character outside `set`.
proof fn lemma_trim_start_in_append(x: Seq<char>, y: Seq<char>, set: Seq<char>)
    requires
        y.len() > 0,
        !set.contains(y[0]),
    ensures
        trim_start_in(x + y, set) == trim_start_in(x, set) + y,
    decreases x.len(),
{
    if x.len() > 0 {
        assert((x + y)[0] == x[0]);
        assert((x + y).drop_first() =~= x.drop_first() + y);
        lemma_trim_start_in_append(x.drop_first(), y, set);
    } else {
        assert(x + y =~= y);
        assert(trim_start_in(x, set) + y =~= y);
    }
}

/// Trailing white space after a character that is not white space is all `trim` takes.
proof fn lemma_trim_end_space_append(p: Seq<char>, s: Seq<char>)
    requires
        p.len() > 0,
        !is_space(p.last()),
    ensures
        trim_end_space(p + s) == p + trim_end_space(s),
    decreases s.len(),
{
    if s.len() == 0 {
        assert(p + s =~= p);
        assert(p + trim_end_space(s) =~= p);
    } else {
        assert((p + s).last() == s.last());
        assert((p + s).drop_last() =~= p + s.drop_last());
        lemma_trim_end_space_append(p, s.drop_last());
        if !is_space(s.last()) {
            assert(trim_end_space(s) == s);
        }
    }
}

/// A pre-release or build suffix is ignored: `1.2.3-beta` and `1.2.3+build` read as
/// `1.2.3`, for a version text that has no `-` or `+` of its own and no white space at
/// its ends.
pub proof fn law_suffix_is_ignored(core: Seq<char>, mark: char, suffix: Seq<char>)
    requires
        mark == '-' || mark == '+',
        core.len() > 0,
        !is_space(core[0]),
        !is_space(core.last()),
        forall|i: int| 0 <= i < core.len() ==> core[i] != '-' && core[i] != '+',
    ensures
        spec_parse_version(core + seq![mark] + suffix) == spec_parse_version(core),
{
    let seps = seq!['-', '+'];
    let vees = seq!['v', 'V'];
    let tail = seq![mark] + suffix;
    let text = core + tail;
    assert(core + seq![mark] + suffix =~= text);
    // The front: `core` starts with a character that is not white space.
    assert(text[0] == core[0]);
    assert(trim_start_space(text) == text);
    assert(trim_start_space(core) == core);
    // The back: white space after the mark is trimmed, the mark itself is not.
    assert(core + seq![mark] =~= core.push(mark));
    assert(!is_space(mark));
    lemma_trim_end_space_append(core.push(mark), suffix);
    assert(text =~= core.push(mark) + suffix);
    assert(trim_end_space(core) == core);
    let trimmed_tail = seq![mark] + trim_end_space(suffix);
    assert(trim(text) =~= core + trimmed_tail);
    assert(trim(core) == core);
    // Leading `v`s come off `core` alone.
    assert(trimmed_tail[0] == mark);
    assert(!vees.contains(mark)) by {
        if vees.contains(mark) {
            let j = choose|j: int| 0 <= j < vees.len() && vees[j] == mark;
        }
    }
    lemma_trim_start_in_append(core, trimmed_tail, vees);
    let front = trim_start_in(core, vees);
    crate::chars::lemma_trim_start_in(core, vees);
    let k = choose|k: int| 0 <= k <= core.len() && front == core.skip(k);
    assert forall|i: int| 0 <= i < front.len() implies !seps.contains(#[trigger] front[i]) by {
        assert(front[i] == core[k + i]);
        if seps.contains(front[i]) {
            let j = choose|j: int| 0 <= j < seps.len() && seps[j] == front[i];
        }
    }
    assert(seps.contains(trimmed_tail[0])) by {
        if mark == '-' {
            assert(seps[0] == mark);
        } else {
            assert(seps[1] == mark);
        }
    }
    lemma_split_first(front, trimmed_tail, seps);
    lemma_split_plain(front, seps);
    assert(version_core(text) == front);
    assert(version_core(core) == front);
}

} // verus!
