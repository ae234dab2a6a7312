//! A small ustar/GNU/pax reader, as decisions over header blocks: regular files and
//! directories are unpacked, links and devices skipped, and long names taken from `L`
//! and `x` records.
use vstd::prelude::*;

use crate::archive::{entry_path, law_entry_paths_are_safe, safe_path, spec_entry_path};
use crate::chars::{chars_of, copy_range, lines, lines_of, opt_view, string_of, strings_view};
use crate::update::{UpdateError, MAX_METADATA_BYTES};

verus! {

// ---------------------------------------------------------------------------------
// Numeric fields

/// NUL and space, which pad numeric fields on both sides.
pub open spec fn pad_byte(b: u8) -> bool {
    b == 0 || b == 32
}

pub open spec fn trim_start_pad(s: Seq<u8>) -> Seq<u8>
    decreases s.len(),
{
    if s.len() > 0 && pad_byte(s[0]) {
        trim_start_pad(s.drop_first())
    } else {
        s
    }
}

pub open spec fn trim_end_pad(s: Seq<u8>) -> Seq<u8>
    decreases s.len(),
{
    if s.len() > 0 && pad_byte(s.last()) {
        trim_end_pad(s.drop_last())
    } else {
        s
    }
}

pub open spec fn octal_digit(b: u8) -> bool {
    48 <= b <= 55
}

/// The value of a run of octal digits.
pub open spec fn octal_value(s: Seq<u8>) -> nat
    decreases s.len(),
{
    if s.len() == 0 {
        0
    } else {
        octal_value(s.drop_last()) * 8 + (s.last() - 48) as nat
    }
}

/// The value of big-endian base-256 bytes.
pub open spec fn base256_value(s: Seq<u8>) -> nat
    decreases s.len(),
{
    if s.len() == 0 {
        0
    } else {
        base256_value(s.drop_last()) * 256 + s.last() as nat
    }
}

/// What a numeric header field holds. A set top bit marks GNU base-256 (the marker
/// bit cleared); otherwise the field is octal text, padded with NULs and spaces, with
/// an optional `+`; an all-padding field is zero.
pub open spec fn spec_tar_number(field: Seq<u8>) -> Result<u64, UpdateError> {
    if field.len() > 0 && field[0] >= 128 {
        let v = base256_value(field.update(0, (field[0] - 128) as u8));
        if v <= u64::MAX {
            Ok(v as u64)
        } else {
            Err(UpdateError::Archive)
        }
    } else if has_high_byte(field) {
        Err(UpdateError::Archive)
    } else {
        let t = trim_end_pad(trim_start_pad(field));
        if t.len() == 0 {
            Ok(0)
        } else {
            spec_octal(t)
        }
    }
}

proof fn lemma_octal_prefix(s: Seq<u8>, k: int)
    requires
        forall|i: int| 0 <= i < s.len() ==> octal_digit(#[trigger] s[i]),
        0 <= k <= s.len(),
    ensures
        octal_value(s.take(k)) <= octal_value(s),
    decreases s.len(),
{
    if k < s.len() {
        let t = s.drop_last();
        assert(t.take(k) =~= s.take(k));
        assert forall|i: int| 0 <= i < t.len() implies octal_digit(#[trigger] t[i]) by {
            assert(t[i] == s[i]);
        }
        lemma_octal_prefix(t, k);
    } else {
        assert(s.take(k) =~= s);
    }
}

proof fn lemma_base256_prefix(s: Seq<u8>, k: int)
    requires
        0 <= k <= s.len(),
    ensures
        base256_value(s.take(k)) <= base256_value(s),
    decreases s.len(),
{
    if k < s.len() {
        let t = s.drop_last();
        assert(t.take(k) =~= s.take(k));
        lemma_base256_prefix(t, k);
    } else {
        assert(s.take(k) =~= s);
    }
}

#[verifier::rlimit(30)]
fn base256_number(field: &[u8]) -> (r: Result<u64, UpdateError>)
    requires
        field@.len() > 0,
        field@[0] >= 128,
    ensures
        r == spec_tar_number(field@),
{
    let first = field[0];
    let top = first & 0x7f;
    assert(first & 0x7f == first - 128) by (bit_vector)
        requires
            first >= 128,
    ;
    let ghost marked = field@.update(0, top);
    assert(marked == field@.update(0, (field@[0] - 128) as u8));
    let mut value: u64 = top as u64;
    assert(marked.take(1) =~= seq![top]);
    assert(seq![top].drop_last() =~= Seq::<u8>::empty());
    assert(seq![top].last() == top);
    assert(base256_value(Seq::<u8>::empty()) == 0);
    assert(base256_value(seq![top]) == top as nat);
    let mut i: usize = 1;
    while i < field.len()
        invariant
            1 <= i <= field@.len(),
            field@.len() > 0,
            field@[0] >= 128,
            marked == field@.update(0, top),
            marked == field@.update(0, (field@[0] - 128) as u8),
            value as nat == base256_value(marked.take(i as int)),
        decreases field@.len() - i,
    {
        let b = field[i] as u64;
        assert(marked.take(i + 1).drop_last() =~= marked.take(i as int));
        assert(marked.take(i + 1).last() == field@[i as int]);
        assert(base256_value(marked.take(i + 1)) == value * 256 + b);
        if value > (u64::MAX - b) / 256 {
            proof {
                assert(value * 256 + b > u64::MAX) by (nonlinear_arith)
                    requires
                        value > (u64::MAX - b) / 256,
                        b <= 255,
                ;
                lemma_base256_prefix(marked, i + 1);
                assert(base256_value(marked) > u64::MAX);
            }
            return Err(UpdateError::Archive);
        }
        proof {
            assert(value * 256 + b <= u64::MAX) by (nonlinear_arith)
                requires
                    value <= (u64::MAX - b) / 256,
                    b <= 255,
            ;
        }
        value = value * 256 + b;
        i = i + 1;
    }
    assert(marked.take(field@.len() as int) =~= marked);
    Ok(value)
}

/// Some byte has its top bit set.
pub open spec fn has_high_byte(field: Seq<u8>) -> bool {
    exists|i: int| 0 <= i < field.len() && #[trigger] field[i] >= 128
}

/// The value of octal digits when there are some and they fit in a `u64`.
pub open spec fn spec_octal_digits(d: Seq<u8>) -> Result<u64, UpdateError> {
    if d.len() > 0 && (forall|i: int| 0 <= i < d.len() ==> octal_digit(#[trigger] d[i]))
        && octal_value(d) <= u64::MAX {
        Ok(octal_value(d) as u64)
    } else {
        Err(UpdateError::Archive)
    }
}

/// The value of octal digits, optionally behind a `+`, when they fit in a `u64`.
pub open spec fn spec_octal(t: Seq<u8>) -> Result<u64, UpdateError> {
    spec_octal_digits(
        if t.len() > 0 && t[0] == 43 {
            t.drop_first()
        } else {
            t
        },
    )
}

fn octal_digits(d: &[u8]) -> (r: Result<u64, UpdateError>)
    ensures
        r == spec_octal_digits(d@),
{
    if d.len() == 0 {
        return Err(UpdateError::Archive);
    }
    let mut value: u64 = 0;
    let mut k: usize = 0;
    assert(d@.take(0) =~= Seq::<u8>::empty());
    while k < d.len()
        invariant
            k <= d@.len(),
            forall|j: int| 0 <= j < k ==> octal_digit(#[trigger] d@[j]),
            value as nat == octal_value(d@.take(k as int)),
        decreases d@.len() - k,
    {
        let b = d[k];
        assert(d@.take(k + 1).drop_last() =~= d@.take(k as int));
        if b < 48 || b > 55 {
            assert(!octal_digit(d@[k as int]));
            return Err(UpdateError::Archive);
        }
        let digit = (b - 48) as u64;
        assert(octal_value(d@.take(k + 1)) == value * 8 + digit);
        if value > (u64::MAX - digit) / 8 {
            proof {
                assert(value * 8 + digit > u64::MAX) by (nonlinear_arith)
                    requires
                        value > (u64::MAX - digit) / 8,
                        digit <= 7,
                ;
                if forall|i: int| 0 <= i < d@.len() ==> octal_digit(#[trigger] d@[i]) {
                    lemma_octal_prefix(d@, k + 1);
                }
            }
            return Err(UpdateError::Archive);
        }
        proof {
            assert(value * 8 + digit <= u64::MAX) by (nonlinear_arith)
                requires
                    value <= (u64::MAX - digit) / 8,
                    digit <= 7,
            ;
        }
        value = value * 8 + digit;
        k = k + 1;
    }
    assert(d@.take(d@.len() as int) =~= d@);
    Ok(value)
}

/// The trimmed field `field[start..end]` without its padding.
fn trimmed_range(field: &[u8]) -> (r: (usize, usize))
    ensures
        r.0 <= r.1 <= field@.len(),
        field@.subrange(r.0 as int, r.1 as int) == trim_end_pad(trim_start_pad(field@)),
{
    let mut start: usize = 0;
    assert(field@.skip(0) =~= field@);
    while start < field.len() && (field[start] == 0 || field[start] == 32)
        invariant
            start <= field@.len(),
            trim_start_pad(field@) == trim_start_pad(field@.skip(start as int)),
        decreases field@.len() - start,
    {
        assert(field@.skip(start as int).drop_first() =~= field@.skip(start + 1));
        start = start + 1;
    }
    let mut end: usize = field.len();
    assert(field@.skip(start as int) =~= field@.subrange(start as int, end as int));
    while end > start && (field[end - 1] == 0 || field[end - 1] == 32)
        invariant
            start <= end <= field@.len(),
            trim_start_pad(field@) == field@.skip(start as int),
            trim_end_pad(trim_start_pad(field@)) == trim_end_pad(
                field@.subrange(start as int, end as int),
            ),
        decreases end,
    {
        assert(field@.subrange(start as int, end as int).drop_last() =~= field@.subrange(
            start as int,
            end - 1,
        ));
        end = end - 1;
    }
    (start, end)
}

/// What a numeric tar header field holds.
pub fn tar_number(field: &[u8]) -> (r: Result<u64, UpdateError>)
    ensures
        r == spec_tar_number(field@),
{
    if field.len() > 0 && field[0] >= 128 {
        return base256_number(field);
    }
    let mut i: usize = 0;
    while i < field.len()
        invariant
            i <= field@.len(),
            !(field@.len() > 0 && field@[0] >= 128),
            forall|j: int| 0 <= j < i ==> field@[j] < 128,
        decreases field@.len() - i,
    {
        if field[i] >= 128 {
            assert(field@[i as int] >= 128);
            assert(has_high_byte(field@));
            return Err(UpdateError::Archive);
        }
        i = i + 1;
    }
    assert(!has_high_byte(field@));
    let (start, end) = trimmed_range(field);
    let ghost t = field@.subrange(start as int, end as int);
    if start == end {
        return Ok(0);
    }
    let from = if field[start] == 43 {
        start + 1
    } else {
        start
    };
    assert(field@.subrange(from as int, end as int) =~= (if t.len() > 0 && t[0] == 43 {
        t.drop_first()
    } else {
        t
    }));
    assert(spec_tar_number(field@) == spec_octal(t));
    let digits = &field[from..end];
    assert(digits@ == field@.subrange(from as int, end as int));
    octal_digits(digits)
}

// ---------------------------------------------------------------------------------
// Text fields

/// The text `bytes` decode to, each ill-formed sequence replaced by U+FFFD.
pub uninterp spec fn utf8_lossy(bytes: Seq<u8>) -> Seq<char>;

/// `String::from_utf8_lossy`: claims that the text is [`utf8_lossy`] of exactly the
/// bytes given, and that well-formed UTF-8 decodes as it is. How ill-formed bytes are
/// replaced is not stated.
#[verifier::external_body]
fn from_utf8_lossy(bytes: &[u8]) -> (text: String)
    ensures
        text@ == utf8_lossy(bytes@),
        vstd::utf8::valid_utf8(bytes@) ==> text@ == vstd::utf8::decode_utf8(bytes@),
{
    String::from_utf8_lossy(bytes).into_owned()
}

/// Where a NUL-terminated field ends: at its first NUL, or at its end.
pub open spec fn nul_end(field: Seq<u8>) -> int
    decreases field.len(),
{
    if field.len() == 0 || field[0] == 0 {
        0
    } else {
        1 + nul_end(field.drop_first())
    }
}

/// The text of a NUL-terminated field.
pub open spec fn field_text(field: Seq<u8>) -> Seq<char> {
    utf8_lossy(field.take(nul_end(field)))
}

/// The text of a NUL-terminated field.
pub fn tar_text(field: &[u8]) -> (text: String)
    ensures
        text@ == field_text(field@),
{
    let mut end: usize = 0;
    assert(field@.skip(0) =~= field@);
    while end < field.len() && field[end] != 0
        invariant
            end <= field@.len(),
            nul_end(field@) == end + nul_end(field@.skip(end as int)),
        decreases field@.len() - end,
    {
        assert(field@.skip(end as int).drop_first() =~= field@.skip(end + 1));
        end = end + 1;
    }
    assert(field@.subrange(0, end as int) =~= field@.take(end as int));
    from_utf8_lossy(&field[0..end])
}

/// Where the first space of `line` is (its length when it has none).
pub open spec fn first_space(line: Seq<char>) -> int
    decreases line.len(),
{
    if line.len() == 0 || line[0] == ' ' {
        0
    } else {
        1 + first_space(line.drop_first())
    }
}

/// The value of a `path=` record in one line: what follows `path=` right after the
/// first space.
pub open spec fn pax_record(line: Seq<char>) -> Option<Seq<char>> {
    let k = first_space(line);
    let pair = line.skip(k + 1);
    if k < line.len() && pair.len() >= 5 && pair.take(5) == seq!['p', 'a', 't', 'h', '='] {
        Some(pair.skip(5))
    } else {
        None
    }
}

/// The value of the first `path=` record in pax extended-header text.
pub open spec fn pax_value(ls: Seq<Seq<char>>) -> Option<Seq<char>>
    decreases ls.len(),
{
    if ls.len() == 0 {
        None
    } else {
        match pax_record(ls[0]) {
            Some(v) => Some(v),
            None => pax_value(ls.drop_first()),
        }
    }
}

/// The path a pax extended header (`x` record) sets, if it sets one.
pub open spec fn spec_pax_path(records: Seq<u8>) -> Option<Seq<char>> {
    pax_value(lines(utf8_lossy(records)))
}

/// The value of a `path=` record in one line.
fn pax_line(line: &[char]) -> (r: Option<Vec<char>>)
    ensures
        match r {
            Some(v) => pax_record(line@) == Some(v@),
            None => pax_record(line@) is None,
        },
{
    let mut k: usize = 0;
    assert(line@.skip(0) =~= line@);
    while k < line.len() && line[k] != ' '
        invariant
            k <= line@.len(),
            first_space(line@) == k + first_space(line@.skip(k as int)),
        decreases line@.len() - k,
    {
        assert(line@.skip(k as int).drop_first() =~= line@.skip(k + 1));
        k = k + 1;
    }
    if k == line.len() {
        return None;
    }
    let pair = copy_range(line, k + 1, line.len());
    assert(pair@ =~= line@.skip(k + 1));
    if pair.len() >= 5 && pair[0] == 'p' && pair[1] == 'a' && pair[2] == 't' && pair[3] == 'h'
        && pair[4] == '=' {
        assert(pair@.take(5) =~= seq!['p', 'a', 't', 'h', '=']);
        let value = copy_range(pair.as_slice(), 5, pair.len());
        assert(value@ =~= pair@.skip(5));
        Some(value)
    } else {
        proof {
            if pair@.len() >= 5 && pair@.take(5) == seq!['p', 'a', 't', 'h', '='] {
                assert(pair@.take(5)[0] == 'p');
                assert(pair@.take(5)[1] == 'a');
                assert(pair@.take(5)[2] == 't');
                assert(pair@.take(5)[3] == 'h');
                assert(pair@.take(5)[4] == '=');
            }
        }
        None
    }
}

/// The path a pax extended header sets, if it sets one.
pub fn pax_path(records: &[u8]) -> (r: Option<String>)
    ensures
        match r {
            Some(path) => spec_pax_path(records@) == Some(path@),
            None => spec_pax_path(records@) is None,
        },
{
    let text = from_utf8_lossy(records);
    let chars = chars_of(text.as_str());
    let all = lines_of(chars.as_slice());
    let ghost ls = lines(utf8_lossy(records@));
    let mut i: usize = 0;
    assert(ls.skip(0) =~= ls);
    while i < all.len()
        invariant
            i <= all@.len(),
            all@.map_values(|p: Vec<char>| p@) == ls,
            ls == lines(utf8_lossy(records@)),
            pax_value(ls) == pax_value(ls.skip(i as int)),
        decreases all@.len() - i,
    {
        let ghost rest = ls.skip(i as int);
        assert(all@[i as int]@ == ls[i as int]);
        assert(rest[0] == ls[i as int]);
        assert(rest.drop_first() =~= ls.skip(i + 1));
        let found = pax_line(all[i].as_slice());
        match found {
            Some(v) => {
                assert(pax_value(ls.skip(i as int)) == Some(v@));
                assert(spec_pax_path(records@) == Some(v@));
                return Some(string_of(v.as_slice()));
            },
            None => {},
        }
        i = i + 1;
    }
    assert(ls.skip(i as int) =~= Seq::<Seq<char>>::empty());
    None
}

// ---------------------------------------------------------------------------------
// Header blocks

/// `ustar\0`: the magic of a POSIX header, the only one with a name prefix at 345.
pub open spec fn ustar_magic() -> Seq<u8> {
    seq![117u8, 115u8, 116u8, 97u8, 114u8, 0u8]
}

/// The name a header gives its entry: a pending long name wins; otherwise the name
/// field, behind the prefix field when a POSIX header has one.
pub open spec fn header_name(header: Seq<u8>, long_name: Option<Seq<char>>) -> Seq<char> {
    match long_name {
        Some(name) => name,
        None => {
            let name = field_text(header.subrange(0, 100));
            let prefix = field_text(header.subrange(345, 500));
            if header.subrange(257, 263) == ustar_magic() && prefix.len() > 0 {
                prefix + seq!['/'] + name
            } else {
                name
            }
        },
    }
}

/// The header checksum: every byte summed, the checksum field itself counting as spaces.
pub open spec fn header_sum(header: Seq<u8>, n: int) -> nat
    decreases n,
{
    if n <= 0 {
        0
    } else {
        header_sum(header, n - 1) + (if 148 <= n - 1 < 156 {
            32
        } else {
            header[n - 1] as nat
        })
    }
}

/// Bytes that fill the last block of a body of `size` bytes.
pub open spec fn padding_for(size: nat) -> nat {
    ((512 - size % 512) % 512) as nat
}

/// A body and its padding always end on a block boundary, and the padding is less
/// than a block.
pub proof fn law_padding_ends_on_a_block(size: nat)
    ensures
        (size + padding_for(size)) % 512 == 0,
        padding_for(size) < 512,
{
    let r = size % 512;
    assert(size == (size / 512) * 512 + r);
    if r == 0 {
        assert(padding_for(size) == 0);
    } else {
        assert(padding_for(size) == 512 - r);
        assert(size + padding_for(size) == (size / 512 + 1) * 512);
    }
}

pub open spec fn all_zero(header: Seq<u8>) -> bool {
    forall|i: int| 0 <= i < header.len() ==> header[i] == 0
}

/// The unpack mode a header carries, when its mode field is a number.
pub open spec fn header_mode(header: Seq<u8>) -> Option<u32> {
    match spec_tar_number(header.subrange(100, 108)) {
        Ok(mode) => Some(mode as u32),
        Err(_) => None,
    }
}

/// What to do with the block that follows a header.
#[derive(Debug, PartialEq, Eq)]
pub enum TarStep {
    /// An all-zero block: the archive ends.
    End,
    /// A GNU long name (`L`) or a pax extended header (`x`) of `size` bytes: its data
    /// sets the name of the next entry.
    Meta { long_link: bool, size: u64, padding: u64 },
    /// A regular file: `size` bytes to write to `path` (none: the archive root).
    File { path: Option<Vec<String>>, size: u64, padding: u64, mode: Option<u32> },
    /// A directory to create at `path`, followed by `skip` bytes to pass over.
    Dir { path: Option<Vec<String>>, skip: u64 },
    /// Anything else (links, devices): `skip` bytes to pass over.
    Skip { skip: u64 },
}

pub open spec fn path_view(path: Option<Vec<String>>) -> Option<Seq<Seq<char>>> {
    match path {
        Some(p) => Some(strings_view(p@)),
        None => None,
    }
}

/// The header is refused: a bad checksum or size, an over-long metadata record, an
/// entry that would leave the destination, or a body too long to pass over.
pub open spec fn tar_step_fails(header: Seq<u8>, long_name: Option<Seq<char>>) -> bool {
    let stored = spec_tar_number(header.subrange(148, 156));
    let size = spec_tar_number(header.subrange(124, 136));
    let kind = header[156];
    let name = header_name(header, long_name);
    &&& !all_zero(header)
    &&& {
        ||| stored is Err
        ||| stored->Ok_0 != header_sum(header, 512)
        ||| size is Err
        ||| {
            let n = size->Ok_0 as nat;
            if kind == 76 || kind == 120 {
                n > MAX_METADATA_BYTES
            } else if kind == 48 || kind == 55 || kind == 0 {
                spec_entry_path(name) is Err
            } else if kind == 53 {
                spec_entry_path(name) is Err || n + padding_for(n) > u64::MAX
            } else {
                n + padding_for(n) > u64::MAX
            }
        }
    }
}

/// `step` is what a header that is not refused asks for.
pub open spec fn tar_step_is(step: TarStep, header: Seq<u8>, long_name: Option<Seq<char>>) -> bool {
    let n = spec_tar_number(header.subrange(124, 136))->Ok_0 as nat;
    let kind = header[156];
    let name = header_name(header, long_name);
    if all_zero(header) {
        step == TarStep::End
    } else if kind == 76 || kind == 120 {
        step == TarStep::Meta { long_link: kind == 76, size: n as u64, padding: padding_for(n) as u64 }
    } else if kind == 48 || kind == 55 || kind == 0 {
        step matches TarStep::File { path, size, padding, mode } && path_view(path)
            == spec_entry_path(name)->Ok_0 && size == n && padding == padding_for(n) && mode
            == header_mode(header)
    } else if kind == 53 {
        step matches TarStep::Dir { path, skip } && path_view(path) == spec_entry_path(name)->Ok_0
            && skip == n + padding_for(n)
    } else {
        step == TarStep::Skip { skip: (n + padding_for(n)) as u64 }
    }
}

fn checksum_of(header: &[u8]) -> (sum: u64)
    requires
        header@.len() == 512,
    ensures
        sum as nat == header_sum(header@, 512),
{
    let mut sum: u64 = 0;
    let mut i: usize = 0;
    while i < 512
        invariant
            i <= 512,
            header@.len() == 512,
            sum as nat == header_sum(header@, i as int),
            sum <= i * 255,
        decreases 512 - i,
    {
        if 148 <= i && i < 156 {
            sum = sum + 32;
        } else {
            sum = sum + header[i] as u64;
        }
        i = i + 1;
    }
    sum
}

/// What a header block asks for, given the long name a preceding `L` or `x` record
/// left pending (it is used up by this header, whatever its kind).
pub fn tar_step(header: &[u8], long_name: Option<String>) -> (r: Result<TarStep, UpdateError>)
    requires
        header@.len() == 512,
    ensures
        r is Err <==> tar_step_fails(header@, opt_view(long_name)),
        r matches Err(e) ==> e == UpdateError::Archive,
        r matches Ok(step) ==> tar_step_is(step, header@, opt_view(long_name)),
        r matches Ok(TarStep::File { path: Some(p), .. }) ==> p@.len() > 0 && safe_path(
            strings_view(p@),
        ),
        r matches Ok(TarStep::Dir { path: Some(p), .. }) ==> p@.len() > 0 && safe_path(
            strings_view(p@),
        ),
{
    let ghost long = opt_view(long_name);
    let mut zero = true;
    let mut i: usize = 0;
    while i < 512
        invariant
            i <= 512,
            header@.len() == 512,
            zero == forall|j: int| 0 <= j < i ==> header@[j] == 0,
        decreases 512 - i,
    {
        if header[i] != 0 {
            zero = false;
        }
        i = i + 1;
    }
    if zero {
        return Ok(TarStep::End);
    }
    let stored = match tar_number(&header[148..156]) {
        Ok(v) => v,
        Err(e) => return Err(e),
    };
    if stored != checksum_of(header) {
        return Err(UpdateError::Archive);
    }
    let size = match tar_number(&header[124..136]) {
        Ok(v) => v,
        Err(e) => return Err(e),
    };
    let padding = (512 - size % 512) % 512;
    let kind = header[156];
    let name = match long_name {
        Some(name) => name,
        None => {
            let plain = tar_text(&header[0..100]);
            let prefix = tar_text(&header[345..500]);
            let magic = &header[257..263];
            let posix = magic[0] == 117 && magic[1] == 115 && magic[2] == 116 && magic[3] == 97
                && magic[4] == 114 && magic[5] == 0;
            proof {
                if posix {
                    assert(header@.subrange(257, 263) =~= ustar_magic());
                } else if header@.subrange(257, 263) == ustar_magic() {
                    assert(header@.subrange(257, 263)[0] == 117);
                    assert(header@.subrange(257, 263)[1] == 115);
                    assert(header@.subrange(257, 263)[2] == 116);
                    assert(header@.subrange(257, 263)[3] == 97);
                    assert(header@.subrange(257, 263)[4] == 114);
                    assert(header@.subrange(257, 263)[5] == 0);
                }
            }
            if posix && !prefix.as_str().is_empty() {
                let mut joined = chars_of(prefix.as_str());
                joined.push('/');
                let tail = chars_of(plain.as_str());
                let mut j: usize = 0;
                let ghost before = joined@;
                while j < tail.len()
                    invariant
                        j <= tail@.len(),
                        joined@ =~= before + tail@.take(j as int),
                    decreases tail@.len() - j,
                {
                    joined.push(tail[j]);
                    j = j + 1;
                }
                assert(tail@.take(tail@.len() as int) =~= tail@);
                string_of(joined.as_slice())
            } else {
                proof {
                    if posix {
                        assert(prefix@.len() == 0);
                    }
                }
                plain
            }
        },
    };
    assert(name@ == header_name(header@, long));
    if kind == 76 || kind == 120 {
        if size > MAX_METADATA_BYTES {
            return Err(UpdateError::Archive);
        }
        return Ok(TarStep::Meta { long_link: kind == 76, size, padding });
    }
    if kind == 48 || kind == 55 || kind == 0 {
        let path = match entry_path(name.as_str()) {
            Ok(p) => p,
            Err(e) => return Err(e),
        };
        let mode = match tar_number(&header[100..108]) {
            Ok(m) => Some(m as u32),
            Err(_) => None,
        };
        return Ok(TarStep::File { path, size, padding, mode });
    }
    if size > u64::MAX - padding {
        return Err(UpdateError::Archive);
    }
    let skip = size + padding;
    if kind == 53 {
        let path = match entry_path(name.as_str()) {
            Ok(p) => p,
            Err(e) => return Err(e),
        };
        return Ok(TarStep::Dir { path, skip });
    }
    Ok(TarStep::Skip { skip })
}

/// The files a run of steps writes, as their paths, in archive order.
pub open spec fn written_by(steps: Seq<TarStep>) -> Seq<Seq<Seq<char>>>
    decreases steps.len(),
{
    if steps.len() == 0 {
        Seq::empty()
    } else {
        let earlier = written_by(steps.drop_last());
        match steps.last() {
            TarStep::File { path: Some(p), .. } => earlier.push(strings_view(p@)),
            _ => earlier,
        }
    }
}

/// A whole unpack stays inside its destination: when every header of a run is
/// accepted and each step is the one its header asks for, every file written and every
/// directory created is a non-empty path of safe components, the files are listed in
/// archive order, and links, devices and other kinds create nothing.
pub proof fn law_an_unpack_stays_inside(
    headers: Seq<Seq<u8>>,
    long_names: Seq<Option<Seq<char>>>,
    steps: Seq<TarStep>,
)
    requires
        headers.len() == steps.len(),
        long_names.len() == steps.len(),
        forall|i: int|
            0 <= i < steps.len() ==> (#[trigger] headers[i]).len() == 512 && !tar_step_fails(
                headers[i],
                long_names[i],
            ) && tar_step_is(steps[i], headers[i], long_names[i]),
    ensures
        forall|j: int|
            0 <= j < written_by(steps).len() ==> (#[trigger] written_by(steps)[j]).len() > 0
                && safe_path(written_by(steps)[j]),
        forall|i: int|
            0 <= i < steps.len() ==> (#[trigger] steps[i] matches TarStep::Dir { path: Some(p), .. }
                ==> p@.len() > 0 && safe_path(strings_view(p@))),
        forall|i: int|
            0 <= i < steps.len() && !all_zero(headers[i]) && headers[i][156] != 48 && headers[i][156]
                != 55 && headers[i][156] != 0 && headers[i][156] != 53 && headers[i][156] != 76
                && headers[i][156] != 120 ==> #[trigger] steps[i] is Skip,
    decreases steps.len(),
{
    if steps.len() > 0 {
        let n = (steps.len() - 1) as int;
        law_an_unpack_stays_inside(headers.drop_last(), long_names.drop_last(), steps.drop_last());
        assert forall|i: int| 0 <= i < steps.len() implies (#[trigger] steps[i] matches TarStep::Dir {
            path: Some(p),
            ..
        } ==> p@.len() > 0 && safe_path(strings_view(p@))) by {
            assert(headers[i].len() == 512);
            law_entry_paths_are_safe(header_name(headers[i], long_names[i]));
            if i < n {
                assert(steps.drop_last()[i] == steps[i]);
            }
        }
        assert(headers[n].len() == 512);
        law_entry_paths_are_safe(header_name(headers[n], long_names[n]));
        let earlier = written_by(steps.drop_last());
        assert forall|j: int| 0 <= j < written_by(steps).len() implies (#[trigger] written_by(
            steps,
        )[j]).len() > 0 && safe_path(written_by(steps)[j]) by {
            if j < earlier.len() {
                assert(written_by(steps)[j] == earlier[j]);
            }
        }
        assert forall|i: int|
            0 <= i < steps.len() && !all_zero(headers[i]) && headers[i][156] != 48 && headers[i][156]
                != 55 && headers[i][156] != 0 && headers[i][156] != 53 && headers[i][156] != 76
                && headers[i][156] != 120 implies #[trigger] steps[i] is Skip by {
            assert(headers[i].len() == 512);
            if i < n {
                assert(steps.drop_last()[i] == steps[i]);
                assert(headers.drop_last()[i] == headers[i]);
            }
        }
    }
}

/// The name a metadata record sets for the next entry: the text of a GNU long name,
/// or the `path=` of a pax header.
pub fn meta_name(long_link: bool, data: &[u8]) -> (r: Option<String>)
    ensures
        long_link ==> (r matches Some(name) && name@ == field_text(data@)),
        !long_link ==> match r {
            Some(name) => spec_pax_path(data@) == Some(name@),
            None => spec_pax_path(data@) is None,
        },
{
    if long_link {
        Some(tar_text(data))
    } else {
        pax_path(data)
    }
}

// ---------------------------------------------------------------------------------
// Reading whole blocks

/// What one read into a block returned.
#[derive(Clone, Copy, Debug, PartialEq, Eq, Structural)]
pub enum ReadEvent {
    /// The read delivered this many bytes (zero: the end of the stream).
    Read(usize),
    /// The read was interrupted and can be retried.
    Interrupted,
    /// The read failed.
    Failed,
}

/// What to do after a read into a block of 512 bytes.
#[derive(Clone, Copy, Debug, PartialEq, Eq, Structural)]
pub enum BlockStep {
    /// Read again; this many bytes of the block are filled.
    Continue(usize),
    /// The block is full.
    Full,
    /// The stream ended cleanly before the block began.
    Eof,
    /// The stream ended inside the block, or the read failed.
    Fail,
}

/// The step after a read, `filled` bytes of the block being filled before it.
pub fn read_block_step(filled: usize, event: ReadEvent) -> (step: BlockStep)
    requires
        filled < 512,
        event matches ReadEvent::Read(n) ==> filled + n <= 512,
    ensures
        step == (match event {
            ReadEvent::Read(n) => if n == 0 && filled == 0 {
                BlockStep::Eof
            } else if n == 0 {
                BlockStep::Fail
            } else if filled + n == 512 {
                BlockStep::Full
            } else {
                BlockStep::Continue((filled + n) as usize)
            },
            ReadEvent::Interrupted => BlockStep::Continue(filled),
            ReadEvent::Failed => BlockStep::Fail,
        }),
{
    match event {
        ReadEvent::Read(n) => {
            if n == 0 && filled == 0 {
                BlockStep::Eof
            } else if n == 0 {
                BlockStep::Fail
            } else if filled + n == 512 {
                BlockStep::Full
            } else {
                BlockStep::Continue(filled + n)
            }
        },
        ReadEvent::Interrupted => BlockStep::Continue(filled),
        ReadEvent::Failed => BlockStep::Fail,
    }
}

} // verus!
