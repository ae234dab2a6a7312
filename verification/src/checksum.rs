//! Reading a `sha256sum`-style listing: `<hash>  <file>` per line.
use vstd::prelude::*;

use crate::chars::{
    split_on, strip_cr, ascii_lower, char_is_space, chars_of, copy_range, is_ascii_hexdigit, is_space, lines, lines_of,
    lower_all, same_chars, string_of, to_ascii_lower, trim_start_in, trim_start_space,
};

verus! {

/// How many characters at the start of `s` are not white space.
pub open spec fn word_len(s: Seq<char>) -> nat
    decreases s.len(),
{
    if s.len() > 0 && !is_space(s[0]) {
        1 + word_len(s.drop_first())
    } else {
        0
    }
}

/// The first white-space separated word of `s` (empty when there is none).
pub open spec fn first_word(s: Seq<char>) -> Seq<char> {
    let t = trim_start_space(s);
    t.take(word_len(t) as int)
}

/// What follows the first word of `s`.
pub open spec fn after_first_word(s: Seq<char>) -> Seq<char> {
    let t = trim_start_space(s);
    t.skip(word_len(t) as int)
}

/// `s` without any number of leading `./`.
pub open spec fn strip_dot_slash(s: Seq<char>) -> Seq<char>
    decreases s.len(),
{
    if s.len() >= 2 && s[0] == '.' && s[1] == '/' {
        strip_dot_slash(s.skip(2))
    } else {
        s
    }
}

/// The file a listing names: a binary-mode `*` and leading `./` do not count.
pub open spec fn listed_name(name: Seq<char>) -> Seq<char> {
    strip_dot_slash(trim_start_in(name, seq!['*']))
}

/// Sixty-four hexadecimal digits.
pub open spec fn is_sha256_hex(hash: Seq<char>) -> bool {
    &&& hash.len() == 64
    &&& forall|i: int| 0 <= i < hash.len() ==> is_ascii_hexdigit(#[trigger] hash[i])
}

/// The lower-case hash a single line lists for `file`, if it does.
pub open spec fn line_checksum(line: Seq<char>, file: Seq<char>) -> Option<Seq<char>> {
    let hash = first_word(line);
    let name = first_word(after_first_word(line));
    if name.len() > 0 && is_sha256_hex(hash) && listed_name(name) == file {
        Some(lower_all(hash))
    } else {
        None
    }
}

/// The hash of the first line in `lines` that lists `file`.
pub open spec fn first_checksum(ls: Seq<Seq<char>>, file: Seq<char>) -> Option<Seq<char>>
    decreases ls.len(),
{
    if ls.len() == 0 {
        None
    } else {
        match line_checksum(ls[0], file) {
            Some(hash) => Some(hash),
            None => first_checksum(ls.drop_first(), file),
        }
    }
}

/// The sha256 that `listing` gives for `file`.
pub open spec fn spec_checksum_for(listing: Seq<char>, file: Seq<char>) -> Option<Seq<char>> {
    first_checksum(lines(listing), file)
}

/// The first index from `from` on that is not white space.
fn skip_spaces(s: &[char], from: usize) -> (r: usize)
    requires
        from <= s@.len(),
    ensures
        from <= r <= s@.len(),
        s@.skip(r as int) == trim_start_space(s@.skip(from as int)),
{
    let mut i = from;
    while i < s.len() && char_is_space(s[i])
        invariant
            from <= i <= s@.len(),
            trim_start_space(s@.skip(i as int)) == trim_start_space(s@.skip(from as int)),
        decreases s@.len() - i,
    {
        assert(s@.skip(i as int).drop_first() =~= s@.skip(i + 1));
        i = i + 1;
    }
    i
}

/// The end of the word that starts at `from`.
fn word_end(s: &[char], from: usize) -> (r: usize)
    requires
        from <= s@.len(),
    ensures
        from <= r <= s@.len(),
        r - from == word_len(s@.skip(from as int)),
{
    let mut i = from;
    while i < s.len() && !char_is_space(s[i])
        invariant
            from <= i <= s@.len(),
            word_len(s@.skip(from as int)) == (i - from) + word_len(s@.skip(i as int)),
        decreases s@.len() - i,
    {
        assert(s@.skip(i as int).drop_first() =~= s@.skip(i + 1));
        i = i + 1;
    }
    i
}

/// `s[from..]` without any number of leading `./`, as an index.
fn skip_dot_slash(s: &[char], from: usize) -> (r: usize)
    requires
        from <= s@.len(),
    ensures
        from <= r <= s@.len(),
        s@.skip(r as int) == strip_dot_slash(s@.skip(from as int)),
{
    let mut i = from;
    while i < s.len() && s.len() - i >= 2 && s[i] == '.' && s[i + 1] == '/'
        invariant
            from <= i <= s@.len(),
            strip_dot_slash(s@.skip(i as int)) == strip_dot_slash(s@.skip(from as int)),
        decreases s@.len() - i,
    {
        assert(s@.skip(i as int).skip(2) =~= s@.skip(i + 2));
        i = i + 2;
    }
    i
}

/// `s[from..]` without leading `*`, as an index.
fn skip_stars(s: &[char], from: usize) -> (r: usize)
    requires
        from <= s@.len(),
    ensures
        from <= r <= s@.len(),
        s@.skip(r as int) == trim_start_in(s@.skip(from as int), seq!['*']),
{
    let mut i = from;
    while i < s.len() && s[i] == '*'
        invariant
            from <= i <= s@.len(),
            trim_start_in(s@.skip(i as int), seq!['*']) == trim_start_in(
                s@.skip(from as int),
                seq!['*'],
            ),
        decreases s@.len() - i,
    {
        assert(s@.skip(i as int).drop_first() =~= s@.skip(i + 1));
        assert(seq!['*'][0] == s@[i as int]);
        i = i + 1;
    }
    assert(seq!['*'].len() == 1 && seq!['*'][0] == '*');
    i
}

/// Whether `s[from..to]` are all hexadecimal digits.
fn all_hex(s: &[char], from: usize, to: usize) -> (r: bool)
    requires
        from <= to <= s@.len(),
    ensures
        r == forall|i: int| from <= i < to ==> is_ascii_hexdigit(#[trigger] s@[i]),
{
    let mut i = from;
    while i < to
        invariant
            from <= i <= to <= s@.len(),
            forall|j: int| from <= j < i ==> is_ascii_hexdigit(#[trigger] s@[j]),
        decreases to - i,
    {
        let c = s[i];
        if !(('0' <= c && c <= '9') || ('a' <= c && c <= 'f') || ('A' <= c && c <= 'F')) {
            return false;
        }
        i = i + 1;
    }
    true
}

/// The lower-case hash one line lists for `file`.
fn checksum_in_line(line: &[char], file: &[char]) -> (r: Option<Vec<char>>)
    ensures
        match r {
            Some(h) => line_checksum(line@, file@) == Some(h@),
            None => line_checksum(line@, file@) is None,
        },
{
    proof {
        assert(line@.skip(0) =~= line@);
    }
    let a = skip_spaces(line, 0);
    let b = word_end(line, a);
    let c = skip_spaces(line, b);
    let d = word_end(line, c);
    let ghost hash = first_word(line@);
    let ghost rest = after_first_word(line@);
    let ghost name = first_word(rest);
    proof {
        assert(hash =~= line@.subrange(a as int, b as int));
        assert(rest =~= line@.skip(b as int));
        assert(line@.skip(b as int).skip((c - b) as int) =~= line@.skip(c as int));
        assert(name =~= line@.subrange(c as int, d as int));
    }
    if d == c || b - a != 64 || !all_hex(line, a, b) {
        proof {
            if b - a == 64 && !(forall|i: int| a <= i < b ==> is_ascii_hexdigit(#[trigger] line@[i])) {
                let i = choose|i: int| a <= i < b && !is_ascii_hexdigit(#[trigger] line@[i]);
                assert(!is_ascii_hexdigit(hash[i - a]));
            }
        }
        return None;
    }
    proof {
        assert forall|i: int| 0 <= i < hash.len() implies is_ascii_hexdigit(#[trigger] hash[i]) by {
            assert(hash[i] == line@[a + i]);
        }
    }
    let name_slice = copy_range(line, c, d);
    proof {
        assert(name_slice@.skip(0) =~= name_slice@);
    }
    let e = skip_stars(name_slice.as_slice(), 0);
    let f = skip_dot_slash(name_slice.as_slice(), e);
    let listed = copy_range(name_slice.as_slice(), f, name_slice.len());
    proof {
        assert(listed@ =~= name_slice@.skip(f as int));
        assert(listed@ == listed_name(name));
    }
    if !same_chars(listed.as_slice(), file) {
        return None;
    }
    let mut out: Vec<char> = Vec::new();
    let mut i = a;
    while i < b
        invariant
            a <= i <= b <= line@.len(),
            hash =~= line@.subrange(a as int, b as int),
            out@ =~= lower_all(hash).take(i - a),
        decreases b - i,
    {
        out.push(to_ascii_lower(line[i]));
        i = i + 1;
    }
    proof {
        assert(lower_all(hash).take(b - a) =~= lower_all(hash));
    }
    Some(out)
}

/// The sha256 listed for `file` in a `sha256sum`-style listing, in lower case.
pub fn checksum_for(listing: &str, file: &str) -> (r: Option<String>)
    ensures
        match r {
            Some(h) => spec_checksum_for(listing@, file@) == Some(h@),
            None => spec_checksum_for(listing@, file@) is None,
        },
        r matches Some(h) ==> is_sha256_hex(h@) && forall|i: int|
            0 <= i < h@.len() ==> !('A' <= #[trigger] h@[i] <= 'Z'),
{
    let text = chars_of(listing);
    let wanted = chars_of(file);
    let all = lines_of(text.as_slice());
    let ghost ls = lines(listing@);
    let mut i: usize = 0;
    assert(ls.skip(0) =~= ls);
    while i < all.len()
        invariant
            i <= all@.len(),
            all@.map_values(|p: Vec<char>| p@) == ls,
            ls == lines(listing@),
            wanted@ == file@,
            first_checksum(ls, file@) == first_checksum(ls.skip(i as int), file@),
        decreases all@.len() - i,
    {
        assert(all@[i as int]@ == ls[i as int]);
        let ghost rest = ls.skip(i as int);
        assert(rest[0] == ls[i as int]);
        assert(rest.drop_first() =~= ls.skip(i + 1));
        match checksum_in_line(all[i].as_slice(), wanted.as_slice()) {
            Some(hash) => {
                let ghost h = first_word(ls[i as int]);
                proof {
                    assert(is_sha256_hex(lower_all(h))) by {
                        assert forall|k: int| 0 <= k < h.len() implies is_ascii_hexdigit(
                            #[trigger] lower_all(h)[k],
                        ) by {
                            assert(lower_all(h)[k] == ascii_lower(h[k]));
                        }
                    }
                    assert forall|k: int| 0 <= k < hash@.len() implies !('A' <= #[trigger] hash@[k]
                        <= 'Z') by {
                        assert(hash@[k] == ascii_lower(h[k]));
                    }
                }
                return Some(string_of(hash.as_slice()));
            },
            None => {},
        }
        i = i + 1;
    }
    assert(ls.skip(i as int).len() == 0);
    None
}

proof fn lemma_word_len_of_word(a: Seq<char>, b: Seq<char>)
    requires
        forall|i: int| 0 <= i < a.len() ==> !is_space(#[trigger] a[i]),
    ensures
        word_len(a + b) == a.len() + word_len(b),
    decreases a.len(),
{
    if a.len() > 0 {
        assert((a + b).drop_first() =~= a.drop_first() + b);
        assert((a + b)[0] == a[0]);
        lemma_word_len_of_word(a.drop_first(), b);
    } else {
        assert(a + b =~= b);
    }
}

proof fn lemma_split_without_sep(s: Seq<char>, seps: Seq<char>)
    requires
        forall|i: int| 0 <= i < s.len() ==> !seps.contains(#[trigger] s[i]),
    ensures
        split_on(s, seps) == seq![s],
    decreases s.len(),
{
    if s.len() > 0 {
        let d = s.drop_last();
        lemma_split_without_sep(d, seps);
        assert(!seps.contains(s[s.len() - 1]));
        assert(d.push(s.last()) =~= s);
        assert(seq![d].update(0, d.push(s.last())) =~= seq![s]);
    } else {
        assert(s =~= Seq::<char>::empty());
    }
}

/// The lines of a listing that holds one line, with or without a line feed after it.
proof fn lemma_single_line(line: Seq<char>)
    requires
        line.len() > 0,
        !is_space(line.last()),
        forall|i: int| 0 <= i < line.len() ==> #[trigger] line[i] != '\n',
    ensures
        lines(line) == seq![line],
        lines(line + seq!['\n']) == seq![line],
{
    let nl = seq!['\n'];
    assert forall|i: int| 0 <= i < line.len() implies !nl.contains(#[trigger] line[i]) by {
        if nl.contains(line[i]) {
            let j = choose|j: int| 0 <= j < nl.len() && nl[j] == line[i];
            assert(nl[j] == '\n');
        }
    }
    lemma_split_without_sep(line, nl);
    let parts = split_on(line, nl);
    assert(Seq::new((parts.len() - 1) as nat, |i: int| strip_cr(parts[i])) =~= Seq::<Seq<char>>::empty());
    assert(lines(line) =~= seq![line]);
    let with = line + nl;
    assert(with.drop_last() =~= line);
    assert(nl.contains(with.last())) by {
        assert(nl[0] == with.last());
    }
    let parts2 = split_on(with, nl);
    assert(parts2 =~= seq![line, Seq::<char>::empty()]);
    assert(line.last() != '\r');
    assert(strip_cr(line) == line);
    assert(Seq::new((parts2.len() - 1) as nat, |i: int| strip_cr(parts2[i])) =~= seq![line]);
}

proof fn lemma_trim_blanks(sp: Seq<char>, x: Seq<char>)
    requires
        forall|i: int| 0 <= i < sp.len() ==> #[trigger] sp[i] == ' ',
    ensures
        trim_start_space(sp + x) == trim_start_space(x),
    decreases sp.len(),
{
    if sp.len() > 0 {
        assert((sp + x)[0] == ' ');
        assert((sp + x).drop_first() =~= sp.drop_first() + x);
        lemma_trim_blanks(sp.drop_first(), x);
    } else {
        assert(sp + x =~= x);
    }
}

/// The words of a line `<hash><blanks><name>`.
proof fn lemma_line_words(hash: Seq<char>, sp: Seq<char>, name: Seq<char>)
    requires
        is_sha256_hex(hash),
        sp.len() > 0,
        forall|i: int| 0 <= i < sp.len() ==> #[trigger] sp[i] == ' ',
        name.len() > 0,
        forall|i: int| 0 <= i < name.len() ==> !is_space(#[trigger] name[i]),
    ensures
        first_word(hash + sp + name) == hash,
        first_word(after_first_word(hash + sp + name)) == name,
        forall|i: int| 0 <= i < (hash + sp + name).len() ==> #[trigger] (hash + sp + name)[i] != '\n',
        !is_space((hash + sp + name).last()),
        (hash + sp + name).len() > 0,
{
    let line = hash + sp + name;
    assert forall|i: int| 0 <= i < hash.len() implies !is_space(#[trigger] hash[i]) by {
        assert(is_ascii_hexdigit(hash[i]));
    }
    assert(line[0] == hash[0]);
    assert(trim_start_space(line) == line);
    assert(line =~= hash + (sp + name));
    lemma_word_len_of_word(hash, sp + name);
    assert((sp + name)[0] == sp[0]);
    assert(word_len(sp + name) == 0);
    assert(first_word(line) =~= hash);
    assert(after_first_word(line) =~= sp + name);
    lemma_trim_blanks(sp, name);
    assert(trim_start_space(name) == name) by {
        assert(!is_space(name[0]));
    }
    lemma_word_len_of_word(name, Seq::<char>::empty());
    assert(name + Seq::<char>::empty() =~= name);
    assert(first_word(sp + name) =~= name);
    assert forall|i: int| 0 <= i < line.len() implies #[trigger] line[i] != '\n' by {
        if i < hash.len() {
            assert(line[i] == hash[i]);
            assert(is_ascii_hexdigit(hash[i]));
        } else if i < hash.len() + sp.len() {
            assert(line[i] == sp[i - hash.len()]);
        } else {
            assert(line[i] == name[i - hash.len() - sp.len()]);
            assert(!is_space(name[i - hash.len() - sp.len()]));
        }
    }
    assert(line.last() == name.last());
    assert(!is_space(name[name.len() - 1]));
}

proof fn lemma_split_after_line(a: Seq<char>, b: Seq<char>)
    requires
        forall|i: int| 0 <= i < a.len() ==> #[trigger] a[i] != '\n',
    ensures
        split_on(a + seq!['\n'] + b, seq!['\n']) == seq![a] + split_on(b, seq!['\n']),
    decreases b.len(),
{
    let nl = seq!['\n'];
    let x = a + nl + b;
    assert(nl.contains('\n')) by {
        assert(nl[0] == '\n');
    }
    if b.len() == 0 {
        assert(forall|i: int| 0 <= i < a.len() ==> !nl.contains(#[trigger] a[i])) by {
            assert forall|i: int| 0 <= i < a.len() implies !nl.contains(#[trigger] a[i]) by {
                if nl.contains(a[i]) {
                    let j = choose|j: int| 0 <= j < nl.len() && nl[j] == a[i];
                    assert(nl[j] == '\n');
                }
            }
        }
        lemma_split_without_sep(a, nl);
        assert(x =~= a.push('\n'));
        assert(x.drop_last() =~= a);
        assert(x.last() == '\n');
        assert(split_on(b, nl) =~= seq![Seq::<char>::empty()]);
        assert(split_on(x, nl) =~= seq![a, Seq::<char>::empty()]);
    } else {
        let d = b.drop_last();
        lemma_split_after_line(a, d);
        crate::chars::lemma_split_on_nonempty(d, nl);
        assert(x.drop_last() =~= a + nl + d);
        assert(x.last() == b.last());
        let pd = split_on(d, nl);
        if nl.contains(b.last()) {
            assert(split_on(x, nl) =~= seq![a] + pd.push(Seq::<char>::empty()));
        } else {
            assert(split_on(x, nl) =~= seq![a] + pd.update(pd.len() - 1, pd.last().push(b.last())));
        }
    }
}

/// The lines of `a`, a line feed and `b`: `a`, then the lines of `b`.
proof fn lemma_lines_after_line(a: Seq<char>, b: Seq<char>)
    requires
        forall|i: int| 0 <= i < a.len() ==> #[trigger] a[i] != '\n',
        a.len() > 0 ==> a.last() != '\r',
    ensures
        lines(a + seq!['\n'] + b) == seq![a] + lines(b),
{
    let nl = seq!['\n'];
    lemma_split_after_line(a, b);
    crate::chars::lemma_split_on_nonempty(b, nl);
    let pb = split_on(b, nl);
    let px = split_on(a + nl + b, nl);
    assert(px.last() == pb.last());
    assert(strip_cr(a) == a);
    let bx = Seq::new((px.len() - 1) as nat, |i: int| strip_cr(px[i]));
    let bb = Seq::new((pb.len() - 1) as nat, |i: int| strip_cr(pb[i]));
    assert(bx =~= seq![a] + bb) by {
        assert forall|i: int| 0 <= i < bx.len() implies bx[i] == (seq![a] + bb)[i] by {
            if i > 0 {
                assert(px[i] == pb[i - 1]);
            }
        }
    }
    if pb.last().len() == 0 {
        assert(lines(a + nl + b) =~= seq![a] + lines(b));
    } else {
        assert(lines(a + nl + b) =~= seq![a] + lines(b));
    }
}

/// The hash a listing gives when its first line is `line` and the rest follows a line
/// feed.
proof fn lemma_first_line_decides(line: Seq<char>, rest: Seq<char>, file: Seq<char>)
    requires
        forall|i: int| 0 <= i < line.len() ==> #[trigger] line[i] != '\n',
        line.len() > 0,
        !is_space(line.last()),
    ensures
        spec_checksum_for(line + seq!['\n'] + rest, file) == match line_checksum(line, file) {
            Some(h) => Some(h),
            None => spec_checksum_for(rest, file),
        },
{
    lemma_lines_after_line(line, rest);
    let ls = seq![line] + lines(rest);
    assert(ls[0] == line);
    assert(ls.drop_first() =~= lines(rest));
}

/// A name that the listing strips nothing from: no leading `*` and no leading `./`.
pub open spec fn bare_name(file: Seq<char>) -> bool {
    &&& file.len() > 0
    &&& forall|i: int| 0 <= i < file.len() ==> !is_space(#[trigger] file[i])
    &&& file[0] != '*'
    &&& !(file.len() >= 2 && file[0] == '.' && file[1] == '/')
}

proof fn lemma_bare_names(file: Seq<char>)
    requires
        bare_name(file),
    ensures
        listed_name(file) == file,
        listed_name(seq!['.', '/'] + file) == file,
        listed_name(seq!['*'] + file) == file,
        listed_name(seq!['*', '.', '/'] + file) == file,
{
    let star = seq!['*'];
    assert(star[0] == '*');
    assert(!star.contains(file[0])) by {
        if star.contains(file[0]) {
            let j = choose|j: int| 0 <= j < 1 && star[j] == file[0];
        }
    }
    assert(!star.contains('.')) by {
        if star.contains('.') {
            let j = choose|j: int| 0 <= j < 1 && star[j] == '.';
        }
    }
    assert(trim_start_in(file, star) == file);
    let dotted = seq!['.', '/'] + file;
    assert(dotted[0] == '.');
    assert(trim_start_in(dotted, star) == dotted);
    assert(dotted.skip(2) =~= file);
    assert(strip_dot_slash(file) == file);
    let starred = star + file;
    assert(starred[0] == '*');
    assert(starred.drop_first() =~= file);
    assert(trim_start_in(starred, star) == file);
    let both = seq!['*', '.', '/'] + file;
    assert(both[0] == '*');
    assert(both.drop_first() =~= dotted);
    assert(trim_start_in(both, star) == dotted);
}

proof fn lemma_name_no_space(prefix: Seq<char>, file: Seq<char>)
    requires
        bare_name(file),
        forall|i: int| 0 <= i < prefix.len() ==> !is_space(#[trigger] prefix[i]),
    ensures
        forall|i: int| 0 <= i < (prefix + file).len() ==> !is_space(#[trigger] (prefix + file)[i]),
{
    assert forall|i: int| 0 <= i < (prefix + file).len() implies !is_space(#[trigger] (prefix + file)[i]) by {
        if i < prefix.len() {
            assert((prefix + file)[i] == prefix[i]);
        } else {
            assert((prefix + file)[i] == file[i - prefix.len()]);
        }
    }
}

/// A listing whose first line is `<hash>`, blanks and the name of `file` gives that
/// hash in lower case for `file`, whatever lines follow, and whether the name is written
/// bare, after `./` (as `sha256sum ./*` writes it), after a binary-mode `*`, or both: for
/// any sixty-four hexadecimal digits, any run of blanks and any file name without white
/// space that does not itself start with `*` or `./`.
pub proof fn law_listed_files_are_found(
    hash: Seq<char>,
    blanks: Seq<char>,
    prefix: Seq<char>,
    file: Seq<char>,
    rest: Seq<char>,
)
    requires
        is_sha256_hex(hash),
        blanks.len() > 0,
        forall|i: int| 0 <= i < blanks.len() ==> #[trigger] blanks[i] == ' ',
        prefix == Seq::<char>::empty() || prefix == seq!['.', '/'] || prefix == seq!['*'] || prefix
            == seq!['*', '.', '/'],
        bare_name(file),
    ensures
        spec_checksum_for(hash + blanks + prefix + file, file) == Some(lower_all(hash)),
        spec_checksum_for(hash + blanks + prefix + file + seq!['\n'] + rest, file) == Some(
            lower_all(hash),
        ),
{
    let name = prefix + file;
    lemma_bare_names(file);
    assert(Seq::<char>::empty() + file =~= file);
    assert(listed_name(name) == file);
    assert forall|i: int| 0 <= i < prefix.len() implies !is_space(#[trigger] prefix[i]) by {
        assert(prefix[i] == '.' || prefix[i] == '/' || prefix[i] == '*');
    }
    lemma_name_no_space(prefix, file);
    assert(hash + blanks + prefix + file =~= hash + blanks + name);
    let line = hash + blanks + name;
    lemma_line_words(hash, blanks, name);
    assert(line_checksum(line, file) == Some(lower_all(hash)));
    lemma_first_line_decides(line, rest, file);
    lemma_single_line(line);
    assert(seq![line].drop_first() =~= Seq::<Seq<char>>::empty());
    assert(first_checksum(seq![line], file) == Some(lower_all(hash)));
}

/// A line that lists another file is passed over: the listing gives for `file` what the
/// lines after it give.
pub proof fn law_other_files_are_passed_over(
    hash: Seq<char>,
    blanks: Seq<char>,
    other: Seq<char>,
    file: Seq<char>,
    rest: Seq<char>,
)
    requires
        is_sha256_hex(hash),
        blanks.len() > 0,
        forall|i: int| 0 <= i < blanks.len() ==> #[trigger] blanks[i] == ' ',
        bare_name(other),
        other != file,
    ensures
        spec_checksum_for(hash + blanks + other + seq!['\n'] + rest, file) == spec_checksum_for(
            rest,
            file,
        ),
{
    lemma_bare_names(other);
    let line = hash + blanks + other;
    lemma_line_words(hash, blanks, other);
    assert(line_checksum(line, file) is None);
    lemma_first_line_decides(line, rest, file);
}

} // verus!
