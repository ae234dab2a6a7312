//! Names of templates: the translation key of a built-in template and the file name a
//! user template is saved under.
use vstd::prelude::*;

use crate::chars::{
    ascii_lower, chars_of, is_ascii_alphanumeric, is_ascii_text, lemma_trim_end_in,
    lemma_trim_start_in, lower_all,
    push_all, string_of, to_ascii_lower, trim_end_in, trim_in, trim_set, trim_start_in,
};

verus! {

/// Whether `char::is_alphanumeric` holds of a character (Unicode `Alphabetic` or
/// `Numeric`).
pub uninterp spec fn alphanumeric(c: char) -> bool;

/// What `char::to_lowercase` yields for a character.
pub uninterp spec fn lowercase_of(c: char) -> Seq<char>;

/// What `char::to_uppercase` yields for a character.
pub uninterp spec fn uppercase_of(c: char) -> Seq<char>;

pub open spec fn ascii_upper(c: char) -> char {
    if 'a' <= c <= 'z' {
        ((c as u32) - 32) as char
    } else {
        c
    }
}

/// `char::is_alphanumeric`: claims the result is [`alphanumeric`] of the character,
/// and for an ASCII character exactly the ASCII letters and digits. Which other
/// characters count is not stated.
#[verifier::external_body]
fn is_alphanumeric(c: char) -> (b: bool)
    ensures
        b == alphanumeric(c),
        (c as u32) < 128 ==> b == is_ascii_alphanumeric(c),
{
    c.is_alphanumeric()
}

/// `char::to_lowercase`: claims the characters are [`lowercase_of`] the character, and
/// for an ASCII character its ASCII lower case alone. Other mappings are not stated.
#[verifier::external_body]
fn to_lowercase(c: char) -> (s: Vec<char>)
    ensures
        s@ == lowercase_of(c),
        (c as u32) < 128 ==> s@ == seq![ascii_lower(c)],
{
    c.to_lowercase().collect()
}

/// `char::to_uppercase`: claims the characters are [`uppercase_of`] the character, and
/// for an ASCII character its ASCII upper case alone. Other mappings are not stated.
#[verifier::external_body]
fn to_uppercase(c: char) -> (s: Vec<char>)
    ensures
        s@ == uppercase_of(c),
        (c as u32) < 128 ==> s@ == seq![ascii_upper(c)],
{
    c.to_uppercase().collect()
}

/// The words of `s`: maximal runs of alphanumeric characters, in order.
pub open spec fn words(s: Seq<char>) -> Seq<Seq<char>>
    decreases s.len(),
{
    if s.len() == 0 {
        Seq::empty()
    } else {
        let earlier = words(s.drop_last());
        let c = s.last();
        if !alphanumeric(c) {
            earlier
        } else if s.len() >= 2 && alphanumeric(s[s.len() - 2]) {
            earlier.update(earlier.len() - 1, earlier.last().push(c))
        } else {
            earlier.push(seq![c])
        }
    }
}

/// The lower case of every character of `s`, one after another.
pub open spec fn lower_flat(s: Seq<char>) -> Seq<char>
    decreases s.len(),
{
    if s.len() == 0 {
        Seq::empty()
    } else {
        lower_flat(s.drop_last()) + lowercase_of(s.last())
    }
}

/// A word of a camel-case key: the first word starts in lower case, the others in
/// upper case, and the rest of each word is lower case.
pub open spec fn camel_word(word: Seq<char>, first: bool) -> Seq<char> {
    (if first {
        lowercase_of(word[0])
    } else {
        uppercase_of(word[0])
    }) + lower_flat(word.drop_first())
}

pub open spec fn camel(ws: Seq<Seq<char>>) -> Seq<char>
    decreases ws.len(),
{
    if ws.len() == 0 {
        Seq::empty()
    } else {
        camel(ws.drop_last()) + camel_word(ws.last(), ws.len() == 1)
    }
}

/// The translation key of a built-in template: its name in camel case, separators
/// dropped (`Talking head, vertical` becomes `talkingHeadVertical`).
pub open spec fn spec_builtin_key(name: Seq<char>) -> Seq<char> {
    camel(words(name))
}

/// The words of an ASCII text: maximal runs of ASCII letters and digits, in order.
pub open spec fn ascii_words(s: Seq<char>) -> Seq<Seq<char>>
    decreases s.len(),
{
    if s.len() == 0 {
        Seq::empty()
    } else {
        let earlier = ascii_words(s.drop_last());
        let c = s.last();
        if !is_ascii_alphanumeric(c) {
            earlier
        } else if s.len() >= 2 && is_ascii_alphanumeric(s[s.len() - 2]) {
            earlier.update(earlier.len() - 1, earlier.last().push(c))
        } else {
            earlier.push(seq![c])
        }
    }
}

/// A word of the key of an ASCII name.
pub open spec fn ascii_camel_word(word: Seq<char>, first: bool) -> Seq<char> {
    seq![
        if first {
            ascii_lower(word[0])
        } else {
            ascii_upper(word[0])
        },
    ] + lower_all(word.drop_first())
}

pub open spec fn ascii_camel(ws: Seq<Seq<char>>) -> Seq<char>
    decreases ws.len(),
{
    if ws.len() == 0 {
        Seq::empty()
    } else {
        ascii_camel(ws.drop_last()) + ascii_camel_word(ws.last(), ws.len() == 1)
    }
}

/// The translation key of a built-in template with an ASCII name (`Beat slideshow`
/// becomes `beatSlideshow`).
pub open spec fn ascii_builtin_key(name: Seq<char>) -> Seq<char> {
    ascii_camel(ascii_words(name))
}

proof fn lemma_ascii_words_ascii(s: Seq<char>)
    requires
        is_ascii_text(s),
    ensures
        forall|i: int| 0 <= i < ascii_words(s).len() ==> is_ascii_text(#[trigger] ascii_words(s)[i]),
    decreases s.len(),
{
    if s.len() > 0 {
        let d = s.drop_last();
        assert forall|i: int| 0 <= i < d.len() implies (#[trigger] d[i] as u32) < 128 by {
            assert(d[i] == s[i]);
        }
        lemma_ascii_words_ascii(d);
        let earlier = ascii_words(d);
        let c = s.last();
        assert((c as u32) < 128) by {
            assert(c == s[s.len() - 1]);
        }
        let w = ascii_words(s);
        if is_ascii_alphanumeric(c) && s.len() >= 2 && is_ascii_alphanumeric(s[s.len() - 2]) {
            assert(d.last() == s[s.len() - 2]);
            lemma_ascii_words_nonempty(d);
            let e = earlier.last();
            assert(is_ascii_text(earlier[earlier.len() - 1]));
            assert forall|i: int| 0 <= i < w.len() implies is_ascii_text(#[trigger] w[i]) by {
                if i < earlier.len() - 1 {
                    assert(w[i] == earlier[i]);
                } else {
                    assert(w[i] =~= e.push(c));
                    assert forall|t: int| 0 <= t < w[i].len() implies (#[trigger] w[i][t] as u32)
                        < 128 by {
                        if t < e.len() {
                            assert(w[i][t] == e[t]);
                        }
                    }
                }
            }
        } else if is_ascii_alphanumeric(c) {
            assert forall|i: int| 0 <= i < w.len() implies is_ascii_text(#[trigger] w[i]) by {
                if i < earlier.len() {
                    assert(w[i] == earlier[i]);
                } else {
                    assert(w[i] =~= seq![c]);
                }
            }
        }
    }
}

proof fn lemma_ascii_words_nonempty(s: Seq<char>)
    requires
        s.len() > 0,
        is_ascii_alphanumeric(s.last()),
    ensures
        ascii_words(s).len() > 0,
    decreases s.len(),
{
    let d = s.drop_last();
    if s.len() >= 2 && is_ascii_alphanumeric(s[s.len() - 2]) {
        assert(d.last() == s[s.len() - 2]);
        lemma_ascii_words_nonempty(d);
    }
}

proof fn lemma_words_nonempty(s: Seq<char>)
    ensures
        forall|i: int| 0 <= i < words(s).len() ==> (#[trigger] words(s)[i]).len() > 0,
        s.len() > 0 && alphanumeric(s.last()) ==> words(s).len() > 0,
    decreases s.len(),
{
    if s.len() > 0 {
        lemma_words_nonempty(s.drop_last());
        let d = s.drop_last();
        let earlier = words(d);
        let c = s.last();
        if s.len() >= 2 {
            assert(d.last() == s[s.len() - 2]);
        }
        if alphanumeric(c) {
            if s.len() >= 2 && alphanumeric(s[s.len() - 2]) {
                assert(earlier.len() > 0);
                let w = earlier.update(earlier.len() - 1, earlier.last().push(c));
                assert forall|i: int| 0 <= i < w.len() implies (#[trigger] w[i]).len() > 0 by {
                    if i < earlier.len() - 1 {
                        assert(w[i] == earlier[i]);
                    }
                }
            } else {
                let w = earlier.push(seq![c]);
                assert forall|i: int| 0 <= i < w.len() implies (#[trigger] w[i]).len() > 0 by {
                    if i < earlier.len() {
                        assert(w[i] == earlier[i]);
                    }
                }
            }
        }
    }
}

pub fn builtin_key(name: &str) -> (key: String)
    ensures
        key@ == spec_builtin_key(name@),
        is_ascii_text(name@) ==> key@ == ascii_builtin_key(name@),
{
    let chars = chars_of(name);
    let mut found: Vec<Vec<char>> = Vec::new();
    let mut i: usize = 0;
    assert(chars@.take(0) =~= Seq::<char>::empty());
    while i < chars.len()
        invariant
            i <= chars@.len(),
            found@.map_values(|w: Vec<char>| w@) == words(chars@.take(i as int)),
            is_ascii_text(chars@) ==> found@.map_values(|w: Vec<char>| w@) == ascii_words(
                chars@.take(i as int),
            ),
        decreases chars@.len() - i,
    {
        let c = chars[i];
        let ghost prefix = chars@.take(i as int);
        let ghost earlier = words(prefix);
        proof {
            assert(chars@.take(i + 1).len() == i + 1);
            assert(chars@.take(i + 1).drop_last() =~= prefix);
            assert(chars@.take(i + 1).last() == c);
            lemma_words_nonempty(prefix);
            if i >= 1 {
                assert(chars@.take(i + 1)[i - 1] == chars@[i - 1]);
                assert(prefix.last() == chars@[i - 1]);
            }
        }
        if is_alphanumeric(c) {
            if i >= 1 && is_alphanumeric(chars[i - 1]) {
                let last = found.len() - 1;
                let mut word = found.remove(last);
                word.push(c);
                found.push(word);
                assert(found@.map_values(|w: Vec<char>| w@) =~= earlier.update(
                    earlier.len() - 1,
                    earlier.last().push(c),
                ));
            } else {
                let mut word: Vec<char> = Vec::new();
                word.push(c);
                found.push(word);
                assert(found@.map_values(|w: Vec<char>| w@) =~= earlier.push(seq![c]));
            }
        }
        i = i + 1;
    }
    assert(chars@.take(chars@.len() as int) =~= chars@);
    let ghost ws = words(name@);
    proof {
        lemma_words_nonempty(name@);
        if is_ascii_text(name@) {
            lemma_ascii_words_ascii(name@);
        }
    }
    let mut out: Vec<char> = Vec::new();
    let mut k: usize = 0;
    assert(ws.take(0) =~= Seq::<Seq<char>>::empty());
    while k < found.len()
        invariant
            k <= found@.len(),
            found@.map_values(|w: Vec<char>| w@) == ws,
            forall|j: int| 0 <= j < ws.len() ==> (#[trigger] ws[j]).len() > 0,
            out@ == camel(ws.take(k as int)),
            is_ascii_text(name@) ==> ws == ascii_words(name@),
            is_ascii_text(name@) ==> forall|j: int| 0 <= j < ws.len() ==> is_ascii_text(#[trigger] ws[j]),
            is_ascii_text(name@) ==> camel(ws.take(k as int)) == ascii_camel(ws.take(k as int)),
        decreases found@.len() - k,
    {
        let word = &found[k];
        assert(word@ == ws[k as int]);
        let ghost before = out@;
        let head = if k == 0 {
            to_lowercase(word[0])
        } else {
            to_uppercase(word[0])
        };
        push_all(&mut out, head.as_slice());
        let mut j: usize = 1;
        assert(word@.drop_first().take(0) =~= Seq::<char>::empty());
        while j < word.len()
            invariant
                1 <= j <= word@.len(),
                out@ == before + head@ + lower_flat(word@.drop_first().take(j - 1)),
                is_ascii_text(word@) ==> lower_flat(word@.drop_first().take(j - 1)) == lower_all(
                    word@.drop_first().take(j - 1),
                ),
            decreases word@.len() - j,
        {
            let lower = to_lowercase(word[j]);
            push_all(&mut out, lower.as_slice());
            proof {
                let rest = word@.drop_first();
                assert(rest.take(j as int).drop_last() =~= rest.take(j - 1));
                assert(rest.take(j as int).last() == word@[j as int]);
                if is_ascii_text(word@) {
                    assert((word@[j as int] as u32) < 128);
                    assert(lower_all(rest.take(j as int)) =~= lower_all(rest.take(j - 1)).push(
                        ascii_lower(word@[j as int]),
                    ));
                }
            }
            assert(out@ =~= before + head@ + lower_flat(word@.drop_first().take(j as int)));
            j = j + 1;
        }
        proof {
            assert(word@.drop_first().take(word@.len() - 1) =~= word@.drop_first());
            assert(ws.take(k + 1).drop_last() =~= ws.take(k as int));
            assert(ws.take(k + 1).last() == ws[k as int]);
            if is_ascii_text(name@) {
                assert(is_ascii_text(ws[k as int]));
                assert((word@[0] as u32) < 128);
                assert(camel_word(ws[k as int], k == 0) =~= ascii_camel_word(ws[k as int], k == 0));
            }
        }
        assert(out@ =~= camel(ws.take(k + 1)));
        k = k + 1;
    }
    assert(ws.take(ws.len() as int) =~= ws);
    string_of(out.as_slice())
}

/// A character of a slug: ASCII letters and digits in lower case, anything else `-`.
pub open spec fn slug_char(c: char) -> char {
    if is_ascii_alphanumeric(c) {
        ascii_lower(c)
    } else {
        '-'
    }
}

/// The file name a user template is saved under: its name in lower-case ASCII letters
/// and digits, other characters as `-`, without leading or trailing `-`; `template`
/// when nothing is left.
pub open spec fn spec_slugify(name: Seq<char>) -> Seq<char> {
    let trimmed = trim_in(name.map_values(|c: char| slug_char(c)), seq!['-']);
    if trimmed.len() == 0 {
        "template"@
    } else {
        trimmed
    }
}

pub fn slugify(name: &str) -> (slug: String)
    ensures
        slug@ == spec_slugify(name@),
{
    let chars = chars_of(name);
    let mut mapped: Vec<char> = Vec::new();
    let mut i: usize = 0;
    while i < chars.len()
        invariant
            i <= chars@.len(),
            mapped@ =~= chars@.map_values(|c: char| slug_char(c)).take(i as int),
        decreases chars@.len() - i,
    {
        let c = chars[i];
        let s = if ('0' <= c && c <= '9') || ('a' <= c && c <= 'z') || ('A' <= c && c <= 'Z') {
            to_ascii_lower(c)
        } else {
            '-'
        };
        mapped.push(s);
        i = i + 1;
    }
    assert(chars@.map_values(|c: char| slug_char(c)).take(chars@.len() as int) =~= chars@.map_values(
        |c: char| slug_char(c),
    ));
    let dash = ['-'];
    assert(dash@ =~= seq!['-']);
    let trimmed = trim_set(mapped.as_slice(), &dash);
    if trimmed.len() == 0 {
        String::from_str("template")
    } else {
        string_of(trimmed.as_slice())
    }
}

/// A character a file name can always hold: a lower-case ASCII letter, a digit or `-`.
pub open spec fn file_name_char(c: char) -> bool {
    ('a' <= c <= 'z') || ('0' <= c <= '9') || c == '-'
}

/// A slug is a safe file name: never empty, only lower-case ASCII letters, digits and
/// `-`, and no `-` at either end.
pub proof fn law_slugs_are_safe_file_names(name: Seq<char>)
    ensures
        spec_slugify(name).len() > 0,
        forall|i: int| 0 <= i < spec_slugify(name).len() ==> file_name_char(#[trigger] spec_slugify(name)[i]),
        spec_slugify(name)[0] != '-',
        spec_slugify(name).last() != '-',
{
    let mapped = name.map_values(|c: char| slug_char(c));
    assert forall|i: int| 0 <= i < mapped.len() implies file_name_char(#[trigger] mapped[i]) by {
        let c = name[i];
        if 'A' <= c <= 'Z' {
            assert(65 <= (c as u32) <= 90);
        }
    }
    let front = trim_start_in(mapped, seq!['-']);
    lemma_trim_start_in(mapped, seq!['-']);
    let k = choose|k: int| 0 <= k <= mapped.len() && front == mapped.skip(k);
    let trimmed = trim_end_in(front, seq!['-']);
    lemma_trim_end_in(front, seq!['-']);
    let m = choose|m: int| 0 <= m <= front.len() && trimmed == front.take(m);
    if trimmed.len() > 0 {
        assert forall|i: int| 0 <= i < trimmed.len() implies file_name_char(#[trigger] trimmed[i]) by {
            assert(trimmed[i] == mapped[k + i]);
        }
        assert(trimmed[0] == front[0]);
        assert(!seq!['-'].contains(front[0]));
        assert(!seq!['-'].contains(trimmed.last()));
        assert(seq!['-'][0] == '-');
        assert(trimmed[0] != '-');
        assert(trimmed.last() != '-');
        assert(spec_slugify(name) == trimmed);
    } else {
        reveal_strlit("template");
        assert(spec_slugify(name) == "template"@);
        assert("template"@[0] == 't');
        assert("template"@.last() == 'e');
    }
}

} // verus!
