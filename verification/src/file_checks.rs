//! Rules for file names and for deciding whether a model is already on
//! disk: name sanitizing, the size tolerance, the validity decision over
//! what the file system reported, and the SHA-256 checksum check.

use vstd::prelude::*;
use crate::text::{chars_of, eq_ignore_ascii_case, push_char, text_eq_ignore_ascii_case};

verus! {

/// Whether `c` is an ASCII letter or digit.
pub open spec fn is_ascii_alnum(c: char) -> bool {
    ('a' <= c && c <= 'z') || ('A' <= c && c <= 'Z') || ('0' <= c && c <= '9')
}

/// Whether a character is alphabetic or numeric in the sense of the Unicode
/// character database, as `char::is_alphanumeric` decides it.
pub uninterp spec fn char_is_alphanumeric(c: char) -> bool;

/// `char::is_alphanumeric`. The contract names the answer
/// `char_is_alphanumeric(c)` and states the one fact used here: among ASCII
/// characters exactly the letters and digits are alphabetic or numeric.
/// Which non-ASCII characters qualify is not stated.
#[verifier::external_body]
pub(crate) fn is_alphanumeric(c: char) -> (r: bool)
    ensures
        r == char_is_alphanumeric(c),
        c < '\u{80}' ==> (r <==> is_ascii_alnum(c)),
{
    c.is_alphanumeric()
}

/// Characters that survive in a sanitized file name.
pub open spec fn kept_in_filename(c: char) -> bool {
    char_is_alphanumeric(c) || c == '.' || c == '_' || c == '-'
}

/// The characters of `s` that are kept in a file name, in order.
pub open spec fn filename_chars(s: Seq<char>) -> Seq<char>
    decreases s.len(),
{
    if s.len() == 0 {
        s
    } else if kept_in_filename(s.last()) {
        filename_chars(s.drop_last()).push(s.last())
    } else {
        filename_chars(s.drop_last())
    }
}

/// `str::replace("..", ".")`: scanning left to right, each ".." that does
/// not overlap an earlier one becomes a single '.'.
pub open spec fn collapse_double_dots(s: Seq<char>) -> Seq<char>
    decreases s.len(),
{
    if s.len() >= 2 && s[0] == '.' && s[1] == '.' {
        seq!['.'] + collapse_double_dots(s.skip(2))
    } else if s.len() == 0 {
        s
    } else {
        seq![s[0]] + collapse_double_dots(s.drop_first())
    }
}

/// What `sanitize_filename` makes of a name.
pub open spec fn sanitized(s: Seq<char>) -> Seq<char> {
    collapse_double_dots(filename_chars(s))
}

/// Every character of `collapse_double_dots(s)` occurs in `s`.
proof fn lemma_collapse_subset(s: Seq<char>)
    ensures
        forall|i: int|
            0 <= i < collapse_double_dots(s).len() ==> s.contains(
                #[trigger] collapse_double_dots(s)[i],
            ),
    decreases s.len(),
{
    let r = collapse_double_dots(s);
    if s.len() >= 2 && s[0] == '.' && s[1] == '.' {
        lemma_collapse_subset(s.skip(2));
        assert forall|i: int| 0 <= i < r.len() implies s.contains(#[trigger] r[i]) by {
            if i > 0 {
                let t = s.skip(2);
                assert(r[i] == collapse_double_dots(t)[i - 1]);
                let k = choose|k: int| 0 <= k < t.len() && t[k] == r[i];
                assert(s[k + 2] == r[i]);
            } else {
                assert(s[0] == r[i]);
            }
        }
    } else if s.len() > 0 {
        lemma_collapse_subset(s.drop_first());
        assert forall|i: int| 0 <= i < r.len() implies s.contains(#[trigger] r[i]) by {
            if i > 0 {
                let t = s.drop_first();
                assert(r[i] == collapse_double_dots(t)[i - 1]);
                let k = choose|k: int| 0 <= k < t.len() && t[k] == r[i];
                assert(s[k + 1] == r[i]);
            } else {
                assert(s[0] == r[i]);
            }
        }
    }
}

proof fn lemma_filename_chars_kept(s: Seq<char>)
    ensures
        forall|i: int|
            0 <= i < filename_chars(s).len() ==> kept_in_filename(#[trigger] filename_chars(s)[i]),
    decreases s.len(),
{
    if s.len() > 0 {
        lemma_filename_chars_kept(s.drop_last());
        let f = filename_chars(s);
        let g = filename_chars(s.drop_last());
        assert forall|i: int| 0 <= i < f.len() implies kept_in_filename(#[trigger] f[i]) by {
            if kept_in_filename(s.last()) && i < g.len() {
                assert(f[i] == g[i]);
            }
        }
    }
}

/// Whether an ASCII character may stand in a sanitized name: a letter, a
/// digit, '.', '_' or '-'.
pub open spec fn ascii_allowed_in_filename(c: char) -> bool {
    is_ascii_alnum(c) || c == '.' || c == '_' || c == '-'
}

/// Removes every character that is not alphanumeric, '.', '_' or '-', then
/// replaces each ".." (left to right, without overlap) by ".".
pub fn sanitize_filename(filename: &str) -> (r: String)
    ensures
        r@ == sanitized(filename@),
        forall|i: int| 0 <= i < r@.len() ==> kept_in_filename(#[trigger] r@[i]),
        forall|i: int|
            0 <= i < r@.len() && r@[i] < '\u{80}' ==> ascii_allowed_in_filename(#[trigger] r@[i]),
        forall|i: int|
            0 <= i < filename@.len() && filename@[i] < '\u{80}' ==> (kept_in_filename(
                #[trigger] filename@[i],
            ) <==> ascii_allowed_in_filename(filename@[i])),
{
    let v = chars_of(filename);
    let mut kept: Vec<char> = Vec::new();
    let mut i: usize = 0;
    while i < v.len()
        invariant
            i <= v.len(),
            kept@ == filename_chars(v@.take(i as int)),
            v@ == filename@,
            forall|k: int|
                0 <= k < i && v@[k] < '\u{80}' ==> (kept_in_filename(#[trigger] v@[k])
                    <==> ascii_allowed_in_filename(v@[k])),
            forall|k: int|
                0 <= k < kept@.len() && kept@[k] < '\u{80}' ==> ascii_allowed_in_filename(
                    #[trigger] kept@[k],
                ),
        decreases v.len() - i,
    {
        let c = v[i];
        assert(v@.take(i + 1).drop_last() =~= v@.take(i as int));
        if is_alphanumeric(c) || c == '.' || c == '_' || c == '-' {
            kept.push(c);
        }
        i = i + 1;
    }
    assert(v@.take(v.len() as int) =~= filename@);
    let mut out = String::new();
    let mut j: usize = 0;
    assert(kept@.skip(0) =~= kept@);
    while j < kept.len()
        invariant
            j <= kept.len(),
            out@ + collapse_double_dots(kept@.skip(j as int)) == collapse_double_dots(kept@),
        decreases kept.len() - j,
    {
        let ghost rest = kept@.skip(j as int);
        if j + 1 < kept.len() && kept[j] == '.' && kept[j + 1] == '.' {
            push_char(&mut out, '.');
            assert(rest.skip(2) =~= kept@.skip(j + 2));
            assert(out@ + collapse_double_dots(kept@.skip(j + 2)) =~= collapse_double_dots(kept@));
            j = j + 2;
        } else {
            push_char(&mut out, kept[j]);
            assert(rest.drop_first() =~= kept@.skip(j + 1));
            assert(out@ + collapse_double_dots(kept@.skip(j + 1)) =~= collapse_double_dots(kept@));
            j = j + 1;
        }
    }
    assert(kept@.skip(j as int) =~= Seq::<char>::empty());
    assert(out@ =~= collapse_double_dots(kept@));
    proof {
        lemma_filename_chars_kept(filename@);
        lemma_collapse_subset(kept@);
        assert forall|i: int| 0 <= i < out@.len() implies kept_in_filename(#[trigger] out@[i])
            && (out@[i] < '\u{80}' ==> ascii_allowed_in_filename(out@[i])) by {
            let k = choose|k: int| 0 <= k < kept@.len() && kept@[k] == out@[i];
        }
    }
    out
}

/// What the file system reported about a destination path.
pub enum FileProbe {
    /// Nothing exists at the path.
    Missing,
    /// A regular file; its length when its metadata could be read.
    File { len: Option<u64> },
    /// A directory; its number of entries when it could be listed.
    Directory { entries: Option<usize> },
    /// Something that is neither a file nor a directory.
    Other,
}

/// Whether a file of `actual` bytes passes for one expected to hold
/// `expected` bytes: with no expectation (0) at least 1000 bytes, otherwise
/// within 1% of the expectation or 1 MiB, whichever is larger.
pub open spec fn size_matches(actual: u64, expected: u64) -> bool {
    if expected == 0 {
        actual >= 1000
    } else {
        let diff = if actual >= expected {
            actual - expected
        } else {
            expected - actual
        };
        let allowed = if expected / 100 >= 1048576 {
            expected / 100
        } else {
            1048576
        };
        diff <= allowed
    }
}

/// Whether a model counts as present: a file whose size matches the
/// expected size (or, when none is expected, matches the size remembered
/// for its URL, or is at least 1000 bytes), or a directory of more than
/// five entries.
pub open spec fn probe_is_valid(probe: FileProbe, expected: u64, cached: Option<u64>) -> bool {
    match probe {
        FileProbe::File { len: Some(actual) } => {
            ||| (cached matches Some(c) && size_matches(actual, c) && expected == 0)
            ||| (expected == 0 && actual >= 1000)
            ||| (expected != 0 && size_matches(actual, expected))
        },
        FileProbe::Directory { entries: Some(n) } => n > 5,
        _ => false,
    }
}

/// The size tolerance of `size_matches`.
pub fn size_is_valid(actual: u64, expected: u64) -> (r: bool)
    ensures
        r == size_matches(actual, expected),
{
    if expected == 0 {
        return actual >= 1000;
    }
    let diff = if actual >= expected {
        actual - expected
    } else {
        expected - actual
    };
    let allowed = if expected / 100 >= 1048576 {
        expected / 100
    } else {
        1048576
    };
    diff <= allowed
}

/// Decides whether a model is present from what the file system reported
/// about its destination, its expected size, and the size remembered for
/// its URL (if it has one and the cache knows it).
pub fn validate_probe(probe: &FileProbe, expected_size: u64, cached_size: Option<u64>) -> (r: bool)
    ensures
        r == probe_is_valid(*probe, expected_size, cached_size),
{
    match probe {
        FileProbe::File { len: Some(actual) } => {
            if let Some(c) = cached_size {
                if size_is_valid(*actual, c) && expected_size == 0 {
                    return true;
                }
            }
            if expected_size == 0 {
                return *actual >= 1000;
            }
            size_is_valid(*actual, expected_size)
        },
        FileProbe::Directory { entries: Some(n) } => *n > 5,
        _ => false,
    }
}

/// Lowercase hexadecimal digit of a value below 16.
pub open spec fn hex_digit(n: int) -> char {
    if n < 10 {
        crate::text::digit_char(n)
    } else if n == 10 {
        'a'
    } else if n == 11 {
        'b'
    } else if n == 12 {
        'c'
    } else if n == 13 {
        'd'
    } else if n == 14 {
        'e'
    } else {
        'f'
    }
}

/// Lowercase hexadecimal rendering of bytes, two digits per byte, high
/// nibble first.
pub open spec fn hex_lower(b: Seq<u8>) -> Seq<char>
    decreases b.len(),
{
    if b.len() == 0 {
        Seq::empty()
    } else {
        hex_lower(b.drop_last()).push(hex_digit((b.last() / 16) as int)).push(
            hex_digit((b.last() % 16) as int),
        )
    }
}

/// `hex::encode`: the bytes as lowercase hexadecimal, two digits per byte,
/// high nibble first.
#[verifier::external_body]
fn hex_encode(data: &[u8]) -> (r: String)
    ensures
        r@ == hex_lower(data@),
{
    hex::encode(data)
}

/// Whether a digest matches an expected hexadecimal checksum, ignoring the
/// case of its letters.
pub fn digest_matches(digest: &[u8], expected_hex: &str) -> (r: bool)
    ensures
        r == eq_ignore_ascii_case(hex_lower(digest@), expected_hex@),
{
    let h = hex_encode(digest);
    text_eq_ignore_ascii_case(h.as_str(), expected_hex)
}

/// The SHA-256 digest of a byte sequence (32 bytes), as `sha2::Sha256`
/// computes it.
pub uninterp spec fn sha256_of(data: Seq<u8>) -> Seq<u8>;

/// A running SHA-256 computation over the bytes fed to it so far.
#[verifier::external_body]
pub struct Sha256Hasher {
    inner: sha2::Sha256,
}

/// The bytes fed to a hasher so far, in order.
pub uninterp spec fn hasher_fed(h: Sha256Hasher) -> Seq<u8>;

impl Sha256Hasher {
    /// `Sha256::default()`: a hasher that has been fed nothing.
    #[verifier::external_body]
    fn fresh() -> (h: Self)
        ensures
            hasher_fed(h) == Seq::<u8>::empty(),
    {
        Sha256Hasher { inner: sha2::Sha256::default() }
    }

    /// `Digest::update`: feeds `chunk` after the bytes fed so far.
    #[verifier::external_body]
    fn absorb(&mut self, chunk: &[u8])
        ensures
            hasher_fed(*final(self)) == hasher_fed(*old(self)) + chunk@,
    {
        sha2::Digest::update(&mut self.inner, chunk)
    }

    /// `Digest::finalize`: the digest of every byte fed.
    #[verifier::external_body]
    fn finish(self) -> (d: Vec<u8>)
        ensures
            d@ == sha256_of(hasher_fed(self)),
    {
        sha2::Digest::finalize(self.inner).to_vec()
    }

    /// A checksum computation that has seen no bytes yet.
    pub fn new() -> (h: Self)
        ensures
            hasher_fed(h) == Seq::<u8>::empty(),
    {
        Self::fresh()
    }

    /// Feeds the next chunk of the file.
    pub fn update(&mut self, chunk: &[u8])
        ensures
            hasher_fed(*final(self)) == hasher_fed(*old(self)) + chunk@,
    {
        self.absorb(chunk)
    }
}

/// Whether the SHA-256 digest of every byte fed to `h` is `expected_hex`,
/// ignoring the case of its letters: the checksum check of a downloaded
/// file.
pub fn digest_of_fed_matches(h: Sha256Hasher, expected_hex: &str) -> (r: bool)
    ensures
        r == eq_ignore_ascii_case(hex_lower(sha256_of(hasher_fed(h))), expected_hex@),
{
    let d = h.finish();
    digest_matches(d.as_slice(), expected_hex)
}

} // verus!
