//! Text handling for documents read from disk: byte-order marks, UTF-8
//! decoding, and the whitespace and line-ending normalization the
//! changelog rests on.

use vstd::prelude::*;

verus! {

/// Whether the Unicode White_Space property holds of the character.
pub uninterp spec fn is_white(c: char) -> bool;

/// Relies on char::is_whitespace: true exactly for characters with the
/// Unicode White_Space property; the result depends on the character alone.
#[verifier::external_body]
fn whitespace(c: char) -> (r: bool)
    ensures
        r == is_white(c),
{
    c.is_whitespace()
}

/// Relies on String::push: appends the given character to the end of the
/// string.
#[verifier::external_body]
pub(crate) fn push_char(s: &mut String, c: char)
    ensures
        final(s)@ == old(s)@.push(c),
{
    s.push(c);
}

/// Length in bytes of the byte-order mark the data begins with, if any.
pub uninterp spec fn bom_len_of(bytes: Seq<u8>) -> nat;

/// Relies on unicode-bom's `Bom::from` on a byte slice and `Bom::len`: the
/// detected mark is a function of the bytes alone, and a mark is reported
/// only when its full byte sequence stands at the front of the data, so
/// its length never exceeds the data's.
#[verifier::external_body]
fn bom_length(bytes: &[u8]) -> (r: usize)
    ensures
        r as nat == bom_len_of(bytes@),
        r <= bytes@.len(),
{
    unicode_bom::Bom::from(bytes).len()
}

/// The bytes with any leading byte-order mark dropped.
pub fn strip_bom(bytes: &Vec<u8>) -> (r: Vec<u8>)
    ensures
        r@ == bytes@.skip(bom_len_of(bytes@) as int),
{
    let n = bom_length(bytes.as_slice());
    let len = bytes.len();
    let mut out: Vec<u8> = Vec::new();
    let mut i = n;
    proof {
        assert(out@ =~= bytes@.subrange(n as int, n as int));
    }
    while i < len
        invariant
            n <= i <= len,
            len == bytes@.len(),
            out@ == bytes@.subrange(n as int, i as int),
        decreases len - i,
    {
        out.push(bytes[i]);
        proof {
            assert(out@ =~= bytes@.subrange(n as int, i + 1));
        }
        i = i + 1;
    }
    proof {
        assert(out@ =~= bytes@.skip(n as int));
    }
    out
}

/// What decoding the bytes as UTF-8 yields, if they are valid UTF-8.
pub uninterp spec fn utf8_decoded(bytes: Seq<u8>) -> Option<Seq<char>>;

/// Relies on String::from_utf8: the decoding is a function of the bytes
/// alone, and succeeds exactly when the bytes are valid UTF-8.
#[verifier::external_body]
fn decode_utf8(bytes: Vec<u8>) -> (r: Option<String>)
    ensures
        match r {
            Some(s) => utf8_decoded(bytes@) == Some(s@),
            None => utf8_decoded(bytes@) is None,
        },
{
    match String::from_utf8(bytes) {
        Ok(s) => Some(s),
        Err(_) => None,
    }
}

/// The text of a document's bytes: any leading byte-order mark is
/// dropped and the rest is decoded as UTF-8. `None` when the remaining
/// bytes are not valid UTF-8.
pub fn read_to_string(bytes: &Vec<u8>) -> (r: Option<String>)
    ensures
        match r {
            Some(s) => utf8_decoded(bytes@.skip(bom_len_of(bytes@) as int)) == Some(s@),
            None => utf8_decoded(bytes@.skip(bom_len_of(bytes@) as int)) is None,
        },
{
    let stripped = strip_bom(bytes);
    decode_utf8(stripped)
}

/// First index at or after `i` holding a non-whitespace character.
pub open spec fn white_prefix_end(s: Seq<char>, i: int) -> int
    decreases s.len() - i,
{
    if i < 0 || i >= s.len() || !is_white(s[i]) {
        i
    } else {
        white_prefix_end(s, i + 1)
    }
}

/// Index just past the last non-whitespace character before `j`.
pub open spec fn white_suffix_start(s: Seq<char>, j: int) -> int
    decreases j,
{
    if j <= 0 || j > s.len() || !is_white(s[j - 1]) {
        j
    } else {
        white_suffix_start(s, j - 1)
    }
}

/// The string without leading and trailing whitespace.
pub open spec fn spec_trimmed(s: Seq<char>) -> Seq<char> {
    let a = white_prefix_end(s, 0);
    let b = white_suffix_start(s, s.len() as int);
    if a <= b {
        s.subrange(a, b)
    } else {
        seq![]
    }
}

/// The whitespace-prefix scan stays inside `[i, len]`.
proof fn lemma_white_prefix_end_bounds(s: Seq<char>, i: int)
    requires
        0 <= i <= s.len(),
    ensures
        i <= white_prefix_end(s, i) <= s.len(),
    decreases s.len() - i,
{
    if i < s.len() && is_white(s[i]) {
        lemma_white_prefix_end_bounds(s, i + 1);
    }
}

/// The whitespace-suffix scan stays inside `[0, j]`.
proof fn lemma_white_suffix_start_bounds(s: Seq<char>, j: int)
    requires
        0 <= j <= s.len(),
    ensures
        0 <= white_suffix_start(s, j) <= j,
    decreases j,
{
    if j > 0 && is_white(s[j - 1]) {
        lemma_white_suffix_start_bounds(s, j - 1);
    }
}

/// The string without leading and trailing whitespace.
pub fn trimmed_str(s: &str) -> (r: String)
    ensures
        r@ == spec_trimmed(s@),
{
    let len = s.unicode_len();
    let mut a: usize = 0;
    proof {
        lemma_white_prefix_end_bounds(s@, 0);
    }
    loop
        invariant
            a <= len,
            len == s@.len(),
            white_prefix_end(s@, 0) == white_prefix_end(s@, a as int),
            white_prefix_end(s@, 0) >= a,
        ensures
            a <= len,
            a as int == white_prefix_end(s@, 0),
        decreases len - a,
    {
        proof {
            lemma_white_prefix_end_bounds(s@, a as int);
        }
        if a >= len {
            break ;
        }
        if !whitespace(s.get_char(a)) {
            break ;
        }
        proof {
            lemma_white_prefix_end_bounds(s@, a + 1);
        }
        a = a + 1;
    }
    let mut b: usize = len;
    proof {
        lemma_white_suffix_start_bounds(s@, len as int);
    }
    loop
        invariant
            b <= len,
            len == s@.len(),
            white_suffix_start(s@, len as int) == white_suffix_start(s@, b as int),
            white_suffix_start(s@, len as int) <= b,
        ensures
            b <= len,
            b as int == white_suffix_start(s@, len as int),
        decreases b,
    {
        proof {
            lemma_white_suffix_start_bounds(s@, b as int);
        }
        if b == 0 {
            break ;
        }
        if !whitespace(s.get_char(b - 1)) {
            break ;
        }
        proof {
            lemma_white_suffix_start_bounds(s@, b - 1);
        }
        b = b - 1;
    }
    if a <= b {
        s.substring_char(a, b).to_owned()
    } else {
        proof {
            assert(spec_trimmed(s@) =~= Seq::<char>::empty());
        }
        String::new()
    }
}

/// Trimming of surrounding whitespace, in place.
pub trait Trim: View<V = Seq<char>> {
    /// Trims whitespace from the beginning and end of the string.
    fn trim(&mut self)
        ensures
            final(self)@ == spec_trimmed(old(self)@),
    ;
}

impl Trim for String {
    fn trim(&mut self) {
        let t = trimmed_str(self.as_str());
        *self = t;
    }
}

/// The string with every carriage return removed.
pub open spec fn without_cr(s: Seq<char>) -> Seq<char>
    decreases s.len(),
{
    if s.len() == 0 {
        seq![]
    } else if s.last() == '\r' {
        without_cr(s.drop_last())
    } else {
        without_cr(s.drop_last()).push(s.last())
    }
}

/// Normalization of line endings to LF, in place.
pub trait NormalizeLineEndings: View<V = Seq<char>> {
    /// Normalizes line endings to LF. Does not handle CR-only line
    /// endings properly: every carriage return is removed.
    fn normalize_line_endings(&mut self)
        ensures
            final(self)@ == without_cr(old(self)@),
    ;
}

impl NormalizeLineEndings for String {
    fn normalize_line_endings(&mut self) {
        let len = self.as_str().unicode_len();
        let mut out = String::new();
        let mut i: usize = 0;
        proof {
            assert(self@.subrange(0, 0) =~= Seq::<char>::empty());
            assert(out@ =~= without_cr(self@.subrange(0, 0)));
        }
        while i < len
            invariant
                i <= len,
                len == self@.len(),
                *self == *old(self),
                out@ == without_cr(self@.subrange(0, i as int)),
            decreases len - i,
        {
            let c = self.as_str().get_char(i);
            proof {
                assert(self@.subrange(0, i + 1).drop_last() =~= self@.subrange(0, i as int));
                assert(self@.subrange(0, i + 1).last() == c);
            }
            if c != '\r' {
                push_char(&mut out, c);
            }
            i = i + 1;
        }
        proof {
            assert(self@.subrange(0, len as int) =~= self@);
        }
        *self = out;
    }
}

} // verus!
