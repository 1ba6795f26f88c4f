//! File identifiers: the version suffix, the trailing dot, and decoding of
//! the identifier's code units to text.
use vstd::prelude::*;
use vstd::utf8::{decode_utf8, valid_utf8};
use crate::error::ISOError;

verus! {

/// Code unit of `;`.
pub const SEMICOLON: u16 = 0x3b;

/// Code unit of `.`.
pub const DOT: u16 = 0x2e;

/// Where `c` last occurs in `s`.
pub open spec fn last_index_of(s: Seq<u16>, c: u16) -> Option<int> {
    if exists|i: int| 0 <= i < s.len() && s[i] == c {
        Some(choose|i: int| 0 <= i < s.len() && s[i] == c && (forall|j: int| i < j < s.len() ==> s[j] != c))
    } else {
        None
    }
}

pub open spec fn is_digit_unit(u: u16) -> bool {
    0x30 <= u <= 0x39
}

/// The number written by decimal digit code units.
pub open spec fn decimal_units(s: Seq<u16>) -> nat
    decreases s.len(),
{
    if s.len() == 0 {
        0
    } else {
        decimal_units(s.drop_last()) * 10 + (s.last() - 0x30) as nat
    }
}

/// Code unit of `+`.
pub const PLUS: u16 = 0x2b;

/// A version suffix: an optional `+`, then one or more digits whose value
/// fits in 16 bits (what `u16::from_str` accepts).
pub open spec fn parse_version(s: Seq<u16>) -> Option<u16> {
    if s.len() > 0 && s[0] == PLUS {
        parse_digits(s.drop_first())
    } else {
        parse_digits(s)
    }
}

/// One or more digits whose value fits in 16 bits.
pub open spec fn parse_digits(s: Seq<u16>) -> Option<u16> {
    if 0 < s.len() && (forall|i: int| 0 <= i < s.len() ==> is_digit_unit(#[trigger] s[i]))
        && decimal_units(s) <= u16::MAX {
        Some(decimal_units(s) as u16)
    } else {
        None
    }
}

/// Drops one trailing `.`, which marks a name without an extension.
pub open spec fn strip_dot(s: Seq<u16>) -> Seq<u16> {
    if s.len() > 0 && s.last() == DOT {
        s.drop_last()
    } else {
        s
    }
}

/// A file's name and version from its identifier as recorded: the version
/// follows the last `;` (1 where there is none), and one trailing `.` of the
/// name is dropped. `None` where the version is not a 16-bit decimal number.
pub open spec fn file_name_version(raw: Seq<u16>) -> Option<(Seq<u16>, u16)> {
    match last_index_of(raw, SEMICOLON) {
        None => Some((strip_dot(raw), 1)),
        Some(i) => match parse_version(raw.subrange(i + 1, raw.len() as int)) {
            None => None,
            Some(v) => Some((strip_dot(raw.take(i)), v)),
        },
    }
}

proof fn lemma_last_index(s: Seq<u16>, c: u16, i: int)
    requires
        0 <= i < s.len(),
        s[i] == c,
        forall|j: int| i < j < s.len() ==> s[j] != c,
    ensures
        last_index_of(s, c) == Some(i),
{
    let k = choose|k: int|
        0 <= k < s.len() && s[k] == c && (forall|j: int| k < j < s.len() ==> s[j] != c);
    assert(0 <= k < s.len() && s[k] == c && (forall|j: int| k < j < s.len() ==> s[j] != c));
    if k < i {
        assert(s[i] != c);
    } else if i < k {
        assert(s[k] != c);
    }
}

/// Reads the version that follows `start`.
fn version_of(units: &Vec<u16>, start: usize) -> (r: Option<u16>)
    requires
        start <= units@.len(),
    ensures
        r == parse_version(units@.subrange(start as int, units@.len() as int)),
{
    if start < units.len() && units[start] == PLUS {
        assert(units@.subrange(start as int, units@.len() as int).drop_first() =~= units@.subrange(
            start + 1,
            units@.len() as int,
        ));
        digits_of(units, start + 1)
    } else {
        digits_of(units, start)
    }
}

/// Reads the digits that follow `start`.
fn digits_of(units: &Vec<u16>, start: usize) -> (r: Option<u16>)
    requires
        start <= units@.len(),
    ensures
        r == parse_digits(units@.subrange(start as int, units@.len() as int)),
{
    let ghost s = units@.subrange(start as int, units@.len() as int);
    if start == units.len() {
        return None;
    }
    let mut v: u32 = 0;
    let mut i: usize = start;
    while i < units.len()
        invariant
            start < units@.len(),
            start <= i <= units@.len(),
            s == units@.subrange(start as int, units@.len() as int),
            forall|j: int| 0 <= j < i - start ==> is_digit_unit(#[trigger] s[j]),
            v == decimal_units(s.take(i - start)),
            v <= u16::MAX,
        decreases units@.len() - i,
    {
        let u = units[i];
        if u < 0x30 || u > 0x39 {
            assert(!is_digit_unit(s[i - start]));
            return None;
        }
        assert(s.take(i - start + 1).drop_last() =~= s.take(i - start));
        let w = v * 10 + (u - 0x30) as u32;
        if w > 0xffff {
            proof {
                if forall|j: int| 0 <= j < s.len() ==> is_digit_unit(#[trigger] s[j]) {
                    lemma_decimal_grows(s, i - start + 1);
                }
            }
            return None;
        }
        v = w;
        i += 1;
    }
    assert(s.take(s.len() as int) =~= s);
    Some(v as u16)
}

proof fn lemma_decimal_grows(s: Seq<u16>, k: int)
    requires
        0 <= k <= s.len(),
        forall|j: int| 0 <= j < s.len() ==> is_digit_unit(#[trigger] s[j]),
    ensures
        decimal_units(s.take(k)) <= decimal_units(s),
    decreases s.len() - k,
{
    if k < s.len() {
        lemma_decimal_grows(s, k + 1);
        assert(s.take(k + 1).drop_last() =~= s.take(k));
    } else {
        assert(s.take(k) =~= s);
    }
}

/// Splits a file identifier into its name and version: see
/// [`file_name_version`].
pub fn split_file_identifier(raw: &Vec<u16>) -> (r: Option<(Vec<u16>, u16)>)
    ensures
        r is Some <==> file_name_version(raw@) is Some,
        r matches Some((n, v)) ==> file_name_version(raw@) == Some((n@, v)),
{
    let mut i: usize = raw.len();
    while i > 0 && raw[i - 1] != SEMICOLON
        invariant
            i <= raw@.len(),
            forall|j: int| i <= j < raw@.len() ==> raw@[j] != SEMICOLON,
        decreases i,
    {
        i -= 1;
    }
    let mut name: Vec<u16> = Vec::new();
    let version: u16;
    let stem_len: usize;
    if i == 0 {
        assert(last_index_of(raw@, SEMICOLON) is None);
        version = 1;
        stem_len = raw.len();
    } else {
        proof {
            lemma_last_index(raw@, SEMICOLON, i - 1);
        }
        match version_of(raw, i) {
            Some(v) => {
                version = v;
            },
            None => {
                return None;
            },
        }
        stem_len = i - 1;
    }
    let mut k: usize = 0;
    while k < stem_len
        invariant
            stem_len <= raw@.len(),
            k <= stem_len,
            name@ == raw@.take(k as int),
        decreases stem_len - k,
    {
        name.push(raw[k]);
        k += 1;
        assert(name@ =~= raw@.take(k as int));
    }
    if name.len() > 0 && name[name.len() - 1] == DOT {
        name.pop();
    }
    assert(raw@.take(raw@.len() as int) =~= raw@);
    Some((name, version))
}

/// How the identifiers of a directory are encoded; chosen by the volume
/// descriptor that roots the tree.
#[derive(Clone, Copy, Debug, PartialEq, Eq, Structural)]
pub enum DirectoryEntryReader {
    /// Directory entry provided by Primary Volume Descriptor
    Primary,
    /// Joliet extensions
    Joliet,
}

pub open spec fn is_surrogate(u: u16) -> bool {
    0xd800 <= u <= 0xdfff
}

/// The character whose scalar value is `u`.
pub open spec fn unit_to_char(u: u16) -> char {
    (u as u32) as char
}

/// The bytes that a primary identifier's code units stand for.
pub open spec fn unit_bytes(s: Seq<u16>) -> Seq<u8> {
    s.map_values(|u: u16| u as u8)
}

/// The text of an identifier's code units: UTF-8 bytes for a primary
/// volume, UCS-2 code units for a Joliet one.
pub open spec fn decode_units(s: Seq<u16>, reader: DirectoryEntryReader) -> Option<Seq<char>> {
    match reader {
        DirectoryEntryReader::Primary => if valid_utf8(unit_bytes(s)) {
            Some(decode_utf8(unit_bytes(s)))
        } else {
            None
        },
        DirectoryEntryReader::Joliet => if forall|i: int| 0 <= i < s.len() ==> !is_surrogate(
            #[trigger] s[i],
        ) {
            Some(s.map_values(|u: u16| unit_to_char(u)))
        } else {
            None
        },
    }
}

/// The code units of an identifier as recorded: one per byte on a primary
/// volume, one per big-endian byte pair on a Joliet one (where an odd length
/// is malformed).
pub open spec fn identifier_units(b: Seq<u8>, reader: DirectoryEntryReader) -> Option<Seq<u16>> {
    match reader {
        DirectoryEntryReader::Primary => Some(b.map_values(|x: u8| x as u16)),
        DirectoryEntryReader::Joliet => if b.len() % 2 == 0 {
            Some(Seq::new((b.len() / 2) as nat, |i: int| (256 * b[2 * i] + b[2 * i + 1]) as u16))
        } else {
            None
        },
    }
}

/// Relies on `String::from_utf8`: it succeeds exactly on valid UTF-8 and
/// then holds the characters the bytes encode.
#[verifier::external_body]
pub(crate) fn utf8_string(bytes: Vec<u8>) -> (r: Option<String>)
    ensures
        r is Some <==> valid_utf8(bytes@),
        r matches Some(s) ==> s@ == decode_utf8(bytes@),
{
    String::from_utf8(bytes).ok()
}

/// Relies on `char::from_u32`: every 16-bit value but a surrogate is the
/// scalar value of a character.
#[verifier::external_body]
fn unit_char(u: u16) -> (r: Option<char>)
    ensures
        r is Some <==> !is_surrogate(u),
        r matches Some(c) ==> c as u32 == u as u32,
{
    char::from_u32(u as u32)
}

/// Relies on `String::from_iter`: the string holds the characters in order.
#[verifier::external_body]
pub(crate) fn string_of_chars(cs: &Vec<char>) -> (r: String)
    ensures
        r@ == cs@,
{
    String::from_iter(cs.iter())
}

/// Turns an identifier's bytes into code units; see [`identifier_units`].
pub fn units_of(b: &[u8], reader: DirectoryEntryReader) -> (r: Option<Vec<u16>>)
    ensures
        r is Some <==> identifier_units(b@, reader) is Some,
        r matches Some(u) ==> identifier_units(b@, reader) == Some(u@),
{
    let mut out: Vec<u16> = Vec::new();
    match reader {
        DirectoryEntryReader::Primary => {
            let mut i: usize = 0;
            while i < b.len()
                invariant
                    i <= b@.len(),
                    out@ == b@.take(i as int).map_values(|x: u8| x as u16),
                decreases b@.len() - i,
            {
                out.push(b[i] as u16);
                i += 1;
                assert(out@ =~= b@.take(i as int).map_values(|x: u8| x as u16));
            }
            assert(b@.take(b@.len() as int) =~= b@);
            Some(out)
        },
        DirectoryEntryReader::Joliet => {
            if b.len() % 2 != 0 {
                return None;
            }
            let ghost want = Seq::new(
                (b@.len() / 2) as nat,
                |i: int| (256 * b@[2 * i] + b@[2 * i + 1]) as u16,
            );
            let mut i: usize = 0;
            while i < b.len() / 2
                invariant
                    b@.len() % 2 == 0,
                    i <= b@.len() / 2,
                    want.len() == b@.len() / 2,
                    forall|k: int| 0 <= k < want.len() ==> #[trigger] want[k] == (256 * b@[2 * k]
                        + b@[2 * k + 1]) as u16,
                    out@ == want.take(i as int),
                decreases b@.len() / 2 - i,
            {
                out.push(256 * b[2 * i] as u16 + b[2 * i + 1] as u16);
                i += 1;
                assert(out@ =~= want.take(i as int));
            }
            assert(want.take(want.len() as int) =~= want);
            Some(out)
        },
    }
}

/// Decodes an identifier's code units to text; see [`decode_units`].
pub fn decode_identifier(units: &Vec<u16>, reader: DirectoryEntryReader) -> (r: Option<String>)
    ensures
        r is Some <==> decode_units(units@, reader) is Some,
        r matches Some(s) ==> decode_units(units@, reader) == Some(s@),
{
    match reader {
        DirectoryEntryReader::Primary => {
            let mut bytes: Vec<u8> = Vec::new();
            let mut i: usize = 0;
            while i < units.len()
                invariant
                    i <= units@.len(),
                    bytes@ == unit_bytes(units@.take(i as int)),
                decreases units@.len() - i,
            {
                bytes.push(#[verifier::truncate] (units[i] as u8));
                i += 1;
                assert(bytes@ =~= unit_bytes(units@.take(i as int)));
            }
            assert(units@.take(units@.len() as int) =~= units@);
            utf8_string(bytes)
        },
        DirectoryEntryReader::Joliet => {
            let mut cs: Vec<char> = Vec::new();
            let mut i: usize = 0;
            while i < units.len()
                invariant
                    i <= units@.len(),
                    cs@ == units@.take(i as int).map_values(|u: u16| unit_to_char(u)),
                    reader == DirectoryEntryReader::Joliet,
                    forall|k: int| 0 <= k < i ==> !is_surrogate(#[trigger] units@[k]),
                decreases units@.len() - i,
            {
                match unit_char(units[i]) {
                    Some(c) => {
                        proof {
                            vstd::utf8::char_u32_cast(c, units@[i as int] as u32);
                        }
                        cs.push(c);
                    },
                    None => {
                        assert(is_surrogate(units@[i as int]));
                        assert(!(forall|k: int|
                            0 <= k < units@.len() ==> !is_surrogate(#[trigger] units@[k])));
                        assert(reader == DirectoryEntryReader::Joliet);
                        assert(decode_units(units@, reader) is None);
                        return None;
                    },
                }
                i += 1;
                assert(cs@ =~= units@.take(i as int).map_values(|u: u16| unit_to_char(u)));
            }
            assert(units@.take(units@.len() as int) =~= units@);
            Some(string_of_chars(&cs))
        },
    }
}

/// A directory's name from the bytes of its identifier: the single bytes 0
/// and 1 name the directory itself and its parent.
pub open spec fn directory_name(raw: Seq<u8>, reader: DirectoryEntryReader) -> Option<Seq<char>> {
    if raw == seq![0u8] {
        Some(seq!['.'])
    } else if raw == seq![1u8] {
        Some(seq!['.', '.'])
    } else {
        match identifier_units(raw, reader) {
            None => None,
            Some(u) => decode_units(u, reader),
        }
    }
}

/// Decodes a directory's identifier; see [`directory_name`]. A Joliet
/// identifier of odd length breaks the file system; text that does not
/// decode is a UTF-8 error.
pub fn decode_directory_name<E>(raw: &[u8], reader: DirectoryEntryReader) -> (r: Result<String, ISOError<E>>)
    ensures
        r is Ok <==> directory_name(raw@, reader) is Some,
        r matches Ok(t) ==> directory_name(raw@, reader) == Some(t@),
        r matches Err(e) ==> (e is InvalidFs <==> identifier_units(raw@, reader) is None),
        r matches Err(e) ==> (e is InvalidFs || e is Utf8),
{
    if raw.len() == 1 && raw[0] == 0 {
        assert(raw@ =~= seq![0u8]);
        let t = ".".to_owned();
        proof {
            reveal_strlit(".");
        }
        return Ok(t);
    }
    if raw.len() == 1 && raw[0] == 1 {
        assert(raw@ =~= seq![1u8]);
        let t = "..".to_owned();
        proof {
            reveal_strlit("..");
        }
        return Ok(t);
    }
    assert(raw@ != seq![0u8] && raw@ != seq![1u8]) by {
        if raw@.len() == 1 {
            assert(raw@[0] != 0 && raw@[0] != 1);
        }
    }
    match units_of(raw, reader) {
        Some(u) => match decode_identifier(&u, reader) {
            Some(t) => Ok(t),
            None => Err(ISOError::Utf8),
        },
        None => Err(ISOError::InvalidFs("odd length of a Joliet identifier")),
    }
}

/// `c` occurs at most once in `s`.
pub open spec fn at_most_once(s: Seq<u16>, c: u16) -> bool {
    forall|i: int, j: int| 0 <= i < j < s.len() && s[i] == c ==> s[j] != c
}

/// The part of an identifier before its version suffix.
pub open spec fn stem(raw: Seq<u16>) -> Seq<u16> {
    match last_index_of(raw, SEMICOLON) {
        None => raw,
        Some(i) => raw.take(i),
    }
}

/// The name part of [`file_name_version`].
pub open spec fn file_name_of(raw: Seq<u16>) -> Seq<u16> {
    match file_name_version(raw) {
        Some((n, _)) => n,
        None => seq![],
    }
}

/// Where [`last_index_of`] finds `c`, it is the last `c`; where it finds
/// none, there is none.
pub proof fn lemma_last_index_facts(s: Seq<u16>, c: u16)
    ensures
        last_index_of(s, c) matches Some(k) ==> 0 <= k < s.len() && s[k] == c && (forall|j: int|
            k < j < s.len() ==> s[j] != c),
        last_index_of(s, c) is None ==> forall|j: int| 0 <= j < s.len() ==> s[j] != c,
{
    if exists|i: int| 0 <= i < s.len() && s[i] == c {
        let i = choose|i: int| 0 <= i < s.len() && s[i] == c;
        lemma_last_exists(s, c, i);
    }
}

proof fn lemma_last_exists(s: Seq<u16>, c: u16, i: int)
    requires
        0 <= i < s.len(),
        s[i] == c,
    ensures
        exists|k: int| 0 <= k < s.len() && s[k] == c && (forall|j: int| k < j < s.len() ==> s[j] != c),
    decreases s.len() - i,
{
    if exists|j: int| i < j < s.len() && s[j] == c {
        let j = choose|j: int| i < j < s.len() && s[j] == c;
        lemma_last_exists(s, c, j);
    } else {
        assert(0 <= i < s.len() && s[i] == c && (forall|j: int| i < j < s.len() ==> s[j] != c));
    }
}

/// A file name keeps no `;` where its identifier has at most one; and a name
/// recorded without an extension (one `.`, at the end of the part before the
/// version) comes out without any `.`.
pub proof fn file_name_is_clean(raw: Seq<u16>)
    requires
        at_most_once(raw, SEMICOLON),
        file_name_version(raw) is Some,
    ensures
        forall|i: int| 0 <= i < file_name_of(raw).len() ==> #[trigger] file_name_of(raw)[i] != SEMICOLON,
        stem(raw).len() > 0 && stem(raw).last() == DOT && at_most_once(stem(raw), DOT) ==> forall|
            i: int,
        | 0 <= i < file_name_of(raw).len() ==> #[trigger] file_name_of(raw)[i] != DOT,
{
    lemma_last_index_facts(raw, SEMICOLON);
    let st = stem(raw);
    let name = file_name_of(raw);
    assert(name == strip_dot(st));
    assert forall|i: int| 0 <= i < st.len() implies #[trigger] st[i] != SEMICOLON by {
        match last_index_of(raw, SEMICOLON) {
            None => {},
            Some(k) => {
                assert(st[i] == raw[i]);
                if raw[i] == SEMICOLON {
                    assert(raw[k] != SEMICOLON);
                }
            },
        }
    }
    assert forall|i: int| 0 <= i < name.len() implies #[trigger] name[i] == st[i] by {}
    if st.len() > 0 && st.last() == DOT && at_most_once(st, DOT) {
        assert forall|i: int| 0 <= i < name.len() implies #[trigger] name[i] != DOT by {
            assert(name[i] == st[i]);
            if st[i] == DOT {
                assert(st[st.len() - 1] != DOT);
            }
        }
    }
}

/// A file recorded without an extension, as `NAME.;V`, is named `NAME`
/// with version `V`.
pub proof fn file_without_extension(stem: Seq<u16>, digits: Seq<u16>)
    requires
        forall|i: int| 0 <= i < stem.len() ==> stem[i] != SEMICOLON,
        digits.len() > 0,
        forall|i: int| 0 <= i < digits.len() ==> is_digit_unit(#[trigger] digits[i]),
        decimal_units(digits) <= u16::MAX,
    ensures
        file_name_version(stem + seq![DOT, SEMICOLON] + digits) == Some(
            (stem, decimal_units(digits) as u16),
        ),
{
    let raw = stem + seq![DOT, SEMICOLON] + digits;
    let k: int = stem.len() as int + 1;
    assert(raw[k] == SEMICOLON);
    assert forall|j: int| k < j < raw.len() implies raw[j] != SEMICOLON by {
        assert(raw[j] == digits[j - k - 1]);
        assert(is_digit_unit(digits[j - k - 1]));
    }
    lemma_last_index(raw, SEMICOLON, k);
    assert(raw.subrange(k + 1, raw.len() as int) =~= digits);
    assert(digits[0] != PLUS) by {
        assert(is_digit_unit(digits[0]));
    }
    assert(raw.take(k) =~= stem.push(DOT));
    assert(strip_dot(stem.push(DOT)) =~= stem);
}

} // verus!
