//! Strict semantic versions: a three-field value with a hand-rolled,
//! position-tagged parser and a canonical rendering.
//!
//! The grammar is `digits '.' digits '.' digits`, base 10, no whitespace,
//! no signs, no leading zero in a component unless the component is exactly
//! `"0"`, and every component at most `u16::MAX`. Parsing never coerces a
//! bad input: the first failure aborts with a tagged error. The canonical
//! rendering accepts exactly the strings the parser accepts, and the two
//! are proved inverse to each other.

use vstd::prelude::*;

use crate::io::push_char;

verus! {

/// The version field being parsed when an error is found.
#[derive(Copy, Clone, PartialEq, Eq, Structural, Debug)]
pub enum Position {
    Major,
    Minor,
    Patch,
}

/// Error from parsing a semantic version string.
#[derive(Copy, Clone, PartialEq, Eq, Structural, Debug)]
pub enum VersionError {
    Empty,
    UnexpectedEnd(Position),
    UnexpectedChar(Position, char),
    UnexpectedCharAfter(Position, char),
    LeadingZero(Position),
    Overflow(Position),
}

/// Semantic version. Does not support pre-release or build metadata.
#[derive(Copy, Clone, PartialEq, Eq, Structural, PartialOrd, Ord, Debug)]
pub struct Version {
    pub major: u16,
    pub minor: u16,
    pub patch: u16,
}

/// Largest value a version component may take.
pub open spec fn component_max() -> int {
    0xffff
}

pub open spec fn is_digit_char(c: char) -> bool {
    48 <= c as int && c as int <= 57
}

/// Numeric value of a single decimal digit character.
pub open spec fn digit_val(c: char) -> int {
    c as int - 48
}

/// The decimal digit character for a value in `0..=9`.
pub open spec fn digit_char(d: int) -> char {
    if d == 0 {
        '0'
    } else if d == 1 {
        '1'
    } else if d == 2 {
        '2'
    } else if d == 3 {
        '3'
    } else if d == 4 {
        '4'
    } else if d == 5 {
        '5'
    } else if d == 6 {
        '6'
    } else if d == 7 {
        '7'
    } else if d == 8 {
        '8'
    } else {
        '9'
    }
}

pub open spec fn all_digits(s: Seq<char>) -> bool {
    forall|i: int| 0 <= i < s.len() ==> is_digit_char(#[trigger] s[i])
}

/// Value of a sequence of decimal digit characters, most significant first.
pub open spec fn seq_val(s: Seq<char>) -> int
    decreases s.len(),
{
    if s.len() == 0 {
        0
    } else {
        seq_val(s.drop_last()) * 10 + digit_val(s.last())
    }
}

/// Canonical decimal rendering of a natural number: no leading zeros.
pub open spec fn digits_of(n: nat) -> Seq<char>
    decreases n,
{
    if n < 10 {
        seq![digit_char(n as int)]
    } else {
        digits_of(n / 10).push(digit_char((n % 10) as int))
    }
}

/// A canonical component string: non-empty digits, no leading zero.
pub open spec fn canon_digits(s: Seq<char>) -> bool {
    &&& s.len() >= 1
    &&& all_digits(s)
    &&& (s[0] == '0' ==> s.len() == 1)
}

/// Canonical rendering of a version: `major '.' minor '.' patch`.
pub open spec fn spec_display(v: Version) -> Seq<char> {
    digits_of(v.major as nat) + seq!['.'] + digits_of(v.minor as nat) + seq!['.'] + digits_of(
        v.patch as nat,
    )
}

impl Version {
    /// Returns the next version with the major number incremented.
    pub fn increment_major(&self) -> (r: Version)
        requires
            self.major < 0xffff,
        ensures
            r == (Version { major: (self.major + 1) as u16, minor: 0u16, patch: 0u16 }),
    {
        Version { major: self.major + 1, minor: 0, patch: 0 }
    }

    /// Returns the next version with the minor number incremented.
    pub fn increment_minor(&self) -> (r: Version)
        requires
            self.minor < 0xffff,
        ensures
            r == (Version { major: self.major, minor: (self.minor + 1) as u16, patch: 0u16 }),
    {
        Version { major: self.major, minor: self.minor + 1, patch: 0 }
    }

    /// Returns the next version with the patch number incremented.
    pub fn increment_patch(&self) -> (r: Version)
        requires
            self.patch < 0xffff,
        ensures
            r == (Version { major: self.major, minor: self.minor, patch: (self.patch + 1) as u16 }),
    {
        Version { major: self.major, minor: self.minor, patch: self.patch + 1 }
    }
}

/// The name of the version field `p` in diagnostics.
pub open spec fn spec_position_text(p: Position) -> Seq<char> {
    match p {
        Position::Major => "major version number"@,
        Position::Minor => "minor version number"@,
        Position::Patch => "patch version number"@,
    }
}

/// The diagnostic line for a parse error.
pub open spec fn spec_error_text(e: VersionError) -> Seq<char> {
    match e {
        VersionError::Empty => "Empty version string"@,
        VersionError::UnexpectedEnd(p) => "Unexpected end of input while parsing "@
            + spec_position_text(p),
        VersionError::UnexpectedChar(p, c) => "Unexpected character '"@ + seq![c]
            + "' while parsing "@ + spec_position_text(p),
        VersionError::UnexpectedCharAfter(p, c) => "Unexpected character '"@ + seq![c]
            + "' after "@ + spec_position_text(p),
        VersionError::LeadingZero(p) => "Leading zero while parsing "@ + spec_position_text(p),
        VersionError::Overflow(p) => "Value of "@ + spec_position_text(p) + " exceeds u16::MAX"@,
    }
}

impl Position {
    /// The field's name as it appears in diagnostics.
    pub fn to_text(&self) -> (r: String)
        ensures
            r@ == spec_position_text(*self),
    {
        match self {
            Position::Major => String::from_str("major version number"),
            Position::Minor => String::from_str("minor version number"),
            Position::Patch => String::from_str("patch version number"),
        }
    }
}

impl VersionError {
    /// The error as a diagnostic line.
    pub fn to_text(&self) -> (r: String)
        ensures
            r@ == spec_error_text(*self),
    {
        match self {
            VersionError::Empty => String::from_str("Empty version string"),
            VersionError::UnexpectedEnd(p) => {
                let mut out = String::from_str("Unexpected end of input while parsing ");
                let pt = p.to_text();
                out.append(pt.as_str());
                out
            },
            VersionError::UnexpectedChar(p, c) => {
                let mut out = String::from_str("Unexpected character '");
                push_char(&mut out, *c);
                out.append("' while parsing ");
                let pt = p.to_text();
                out.append(pt.as_str());
                proof {
                    assert(out@ =~= spec_error_text(*self));
                }
                out
            },
            VersionError::UnexpectedCharAfter(p, c) => {
                let mut out = String::from_str("Unexpected character '");
                push_char(&mut out, *c);
                out.append("' after ");
                let pt = p.to_text();
                out.append(pt.as_str());
                proof {
                    assert(out@ =~= spec_error_text(*self));
                }
                out
            },
            VersionError::LeadingZero(p) => {
                let mut out = String::from_str("Leading zero while parsing ");
                let pt = p.to_text();
                out.append(pt.as_str());
                out
            },
            VersionError::Overflow(p) => {
                let mut out = String::from_str("Value of ");
                let pt = p.to_text();
                out.append(pt.as_str());
                out.append(" exceeds u16::MAX");
                proof {
                    assert(out@ =~= spec_error_text(*self));
                }
                out
            },
        }
    }
}

/// The decimal digit character for a component digit value.
fn digit_to_char(d: u16) -> (c: char)
    requires
        d < 10,
    ensures
        c == digit_char(d as int),
{
    if d == 0 {
        '0'
    } else if d == 1 {
        '1'
    } else if d == 2 {
        '2'
    } else if d == 3 {
        '3'
    } else if d == 4 {
        '4'
    } else if d == 5 {
        '5'
    } else if d == 6 {
        '6'
    } else if d == 7 {
        '7'
    } else if d == 8 {
        '8'
    } else {
        '9'
    }
}

/// Appends the canonical decimal rendering of `n` to `out`.
fn push_decimal(n: u16, out: &mut String)
    ensures
        final(out)@ == old(out)@ + digits_of(n as nat),
    decreases n,
{
    if n >= 10 {
        push_decimal(n / 10, out);
    }
    let c = digit_to_char(n % 10);
    push_char(out, c);
    proof {
        assert(final(out)@ =~= old(out)@ + digits_of(n as nat));
    }
}

/// Length of the run of digit characters in `s` starting at index `i`.
pub open spec fn digit_run_len(s: Seq<char>, i: int) -> int
    decreases s.len() - i,
{
    if i < 0 || i >= s.len() || !is_digit_char(s[i]) {
        0
    } else {
        1 + digit_run_len(s, i + 1)
    }
}

/// One numeric component, parsed at index `i`: its value and the index
/// just past it, or the error the grammar prescribes.
pub open spec fn spec_parse_number(s: Seq<char>, i: int, pos: Position) -> Result<
    (u16, int),
    VersionError,
> {
    let run = digit_run_len(s, i);
    if run == 0 {
        if i < s.len() {
            Err(VersionError::UnexpectedChar(pos, s[i]))
        } else {
            Err(VersionError::UnexpectedEnd(pos))
        }
    } else if s[i] == '0' && run >= 2 {
        Err(VersionError::LeadingZero(pos))
    } else if seq_val(s.subrange(i, i + run)) > component_max() {
        Err(VersionError::Overflow(pos))
    } else {
        Ok((seq_val(s.subrange(i, i + run)) as u16, i + run))
    }
}

/// The separator before the component tagged `pos`: a dot at index `i`.
pub open spec fn spec_parse_dot(s: Seq<char>, i: int, pos: Position) -> Result<
    int,
    VersionError,
> {
    if i >= s.len() {
        Err(VersionError::UnexpectedEnd(pos))
    } else if s[i] != '.' {
        Err(VersionError::UnexpectedChar(pos, s[i]))
    } else {
        Ok(i + 1)
    }
}

/// The whole grammar: `major '.' minor '.' patch` and nothing after.
pub open spec fn spec_parse(s: Seq<char>) -> Result<Version, VersionError> {
    if s.len() == 0 {
        Err(VersionError::Empty)
    } else {
        match spec_parse_number(s, 0, Position::Major) {
            Err(e) => Err(e),
            Ok((major, i1)) => match spec_parse_dot(s, i1, Position::Minor) {
                Err(e) => Err(e),
                Ok(i2) => match spec_parse_number(s, i2, Position::Minor) {
                    Err(e) => Err(e),
                    Ok((minor, i3)) => match spec_parse_dot(s, i3, Position::Patch) {
                        Err(e) => Err(e),
                        Ok(i4) => match spec_parse_number(s, i4, Position::Patch) {
                            Err(e) => Err(e),
                            Ok((patch, i5)) => if i5 < s.len() {
                                Err(VersionError::UnexpectedCharAfter(Position::Patch, s[i5]))
                            } else {
                                Ok(Version { major, minor, patch })
                            },
                        },
                    },
                },
            },
        }
    }
}

impl Version {
    /// Canonical text of the version, the only form the parser accepts.
    pub fn to_text(&self) -> (r: String)
        ensures
            r@ == spec_display(*self),
    {
        let mut out = String::new();
        push_decimal(self.major, &mut out);
        push_char(&mut out, '.');
        push_decimal(self.minor, &mut out);
        push_char(&mut out, '.');
        push_decimal(self.patch, &mut out);
        proof {
            assert(out@ =~= spec_display(*self));
        }
        out
    }
}

/// One numeric component of `s` starting at `start`, as the grammar reads it.
fn parse_number(s: &str, start: usize, pos: Position) -> (r: Result<(u16, usize), VersionError>)
    requires
        start <= s@.len(),
    ensures
        match r {
            Ok((value, next)) => next as int <= s@.len() && spec_parse_number(
                s@,
                start as int,
                pos,
            ) == Ok::<(u16, int), VersionError>((value, next as int)),
            Err(e) => spec_parse_number(s@, start as int, pos) == Err::<
                (u16, int),
                VersionError,
            >(e),
        },
{
    proof {
        lemma_digit_run_props(s@, start as int);
        assert(s@.subrange(start as int, start as int) =~= Seq::<char>::empty());
        assert(seq_val(Seq::<char>::empty()) == 0);
    }
    let ghost run = digit_run_len(s@, start as int);
    let len = s.unicode_len();
    let mut k: usize = 0;
    let mut value: u16 = 0;
    loop
        invariant
            start <= s@.len(),
            s@.len() == len,
            run == digit_run_len(s@, start as int),
            0 <= run,
            start + run <= s@.len(),
            k <= run,
            forall|j: int| start <= j < start + run ==> is_digit_char(#[trigger] s@[j]),
            start + run < s@.len() ==> !is_digit_char(s@[start as int + run]),
            value as int == seq_val(s@.subrange(start as int, start + k)),
            k >= 2 ==> s@[start as int] != '0',
            k == 1 ==> value as int == digit_val(s@[start as int]),
        ensures
            k == run,
            value as int == seq_val(s@.subrange(start as int, start + run)),
            run >= 2 ==> s@[start as int] != '0',
        decreases s@.len() - start - k,
    {
        if start + k >= len {
            proof {
                assert(k == run);
            }
            break ;
        }
        let c = s.get_char(start + k);
        let cv = c as u32;
        if cv < 48 || cv > 57 {
            proof {
                assert(!is_digit_char(c));
                assert(k == run);
            }
            break ;
        }
        proof {
            assert(is_digit_char(c));
            assert(k < run) by {
                if k == run {
                    assert(start + run < s@.len());
                    assert(!is_digit_char(s@[start as int + run]));
                }
            }
        }
        if value == 0 && k > 0 {
            proof {
                let a = s@.subrange(start as int, start as int + k);
                assert(a[0] == s@[start as int]);
                assert(all_digits(a));
                if s@[start as int] != '0' {
                    lemma_seq_val_pos(a);
                }
                assert(s@[start as int] == '0');
                assert(run >= 2);
            }
            return Err(VersionError::LeadingZero(pos));
        }
        let d = (cv - 48) as u16;
        let nv: u32 = value as u32 * 10 + d as u32;
        proof {
            let a = s@.subrange(start as int, start as int + k);
            let b = s@.subrange(start as int, start as int + k + 1);
            assert(b.drop_last() =~= a);
            assert(b.last() == c);
            assert(nv as int == seq_val(b));
        }
        if nv > 0xffff {
            proof {
                let b = s@.subrange(start as int, start as int + k + 1);
                let full = s@.subrange(start as int, start + run);
                assert(all_digits(full));
                assert(b =~= full.subrange(0, k + 1));
                lemma_seq_val_prefix_le(full, k + 1);
                assert(seq_val(full) > component_max());
                if s@[start as int] == '0' {
                    assert(k < 2);
                    if k == 1 {
                        assert(value as int == digit_val(s@[start as int]));
                        assert(value == 0);
                        assert(false);
                    }
                    assert(value as int == seq_val(
                        s@.subrange(start as int, start as int),
                    ));
                    assert(s@.subrange(start as int, start as int) =~= Seq::<char>::empty());
                    assert(value == 0);
                    assert(nv as int == digit_val(c));
                    assert(false);
                }
            }
            return Err(VersionError::Overflow(pos));
        }
        value = nv as u16;
        k = k + 1;
    }
    if k == 0 {
        proof {
            assert(run == 0);
        }
        if start < len {
            let c = s.get_char(start);
            return Err(VersionError::UnexpectedChar(pos, c));
        }
        return Err(VersionError::UnexpectedEnd(pos));
    }
    proof {
        assert(k == run);
        if run >= 2 {
            assert(s@[start as int] != '0');
        }
    }
    Ok((value, start + k))
}

/// The dot separator before the component tagged `pos`.
fn parse_dot(s: &str, at: usize, pos: Position) -> (r: Result<usize, VersionError>)
    requires
        at <= s@.len(),
    ensures
        match r {
            Ok(next) => next as int <= s@.len() && spec_parse_dot(s@, at as int, pos) == Ok::<
                int,
                VersionError,
            >(next as int),
            Err(e) => spec_parse_dot(s@, at as int, pos) == Err::<int, VersionError>(e),
        },
{
    let len = s.unicode_len();
    if at >= len {
        return Err(VersionError::UnexpectedEnd(pos));
    }
    let c = s.get_char(at);
    if c != '.' {
        return Err(VersionError::UnexpectedChar(pos, c));
    }
    Ok(at + 1)
}

impl Version {
    /// Parses a semantic version from its strict `major.minor.patch` text.
    ///
    /// Succeeds exactly on canonical renderings; every rejection carries
    /// the field being read and the reason parsing stopped there.
    pub fn parse(text: &str) -> (r: Result<Version, VersionError>)
        ensures
            r == spec_parse(text@),
    {
        let len = text.unicode_len();
        if len == 0 {
            return Err(VersionError::Empty);
        }
        let (major, i1) = match parse_number(text, 0, Position::Major) {
            Ok(p) => p,
            Err(e) => {
                return Err(e);
            },
        };
        let i2 = match parse_dot(text, i1, Position::Minor) {
            Ok(i) => i,
            Err(e) => {
                return Err(e);
            },
        };
        let (minor, i3) = match parse_number(text, i2, Position::Minor) {
            Ok(p) => p,
            Err(e) => {
                return Err(e);
            },
        };
        let i4 = match parse_dot(text, i3, Position::Patch) {
            Ok(i) => i,
            Err(e) => {
                return Err(e);
            },
        };
        let (patch, i5) = match parse_number(text, i4, Position::Patch) {
            Ok(p) => p,
            Err(e) => {
                return Err(e);
            },
        };
        if i5 < len {
            let c = text.get_char(i5);
            return Err(VersionError::UnexpectedCharAfter(Position::Patch, c));
        }
        Ok(Version { major, minor, patch })
    }
}

/// Basic facts about a digit run: it stays inside the string, every
/// character in it is a digit, and it ends at a non-digit or at the end.
proof fn lemma_digit_run_props(s: Seq<char>, i: int)
    requires
        0 <= i <= s.len(),
    ensures
        0 <= digit_run_len(s, i),
        i + digit_run_len(s, i) <= s.len(),
        forall|j: int| i <= j < i + digit_run_len(s, i) ==> is_digit_char(#[trigger] s[j]),
        i + digit_run_len(s, i) < s.len() ==> !is_digit_char(s[i + digit_run_len(s, i)]),
    decreases s.len() - i,
{
    if i < s.len() && is_digit_char(s[i]) {
        lemma_digit_run_props(s, i + 1);
    }
}

/// A run of exactly `k` digits at `i` has `digit_run_len` equal to `k`.
proof fn lemma_digit_run_exact(s: Seq<char>, i: int, k: int)
    requires
        0 <= i,
        0 <= k,
        i + k <= s.len(),
        forall|j: int| i <= j < i + k ==> is_digit_char(#[trigger] s[j]),
        i + k == s.len() || !is_digit_char(s[i + k]),
    ensures
        digit_run_len(s, i) == k,
    decreases k,
{
    if k > 0 {
        lemma_digit_run_exact(s, i + 1, k - 1);
    }
}

/// The value of a digit string is never negative.
proof fn lemma_seq_val_nonneg(s: Seq<char>)
    requires
        all_digits(s),
    ensures
        seq_val(s) >= 0,
    decreases s.len(),
{
    if s.len() > 0 {
        assert(all_digits(s.drop_last()));
        lemma_seq_val_nonneg(s.drop_last());
    }
}

/// A digit string that does not start with '0' has a positive value.
proof fn lemma_seq_val_pos(s: Seq<char>)
    requires
        all_digits(s),
        s.len() >= 1,
        s[0] != '0',
    ensures
        seq_val(s) >= 1,
    decreases s.len(),
{
    if s.len() == 1 {
        assert(s.drop_last() =~= Seq::<char>::empty());
        assert(seq_val(Seq::<char>::empty()) == 0);
        assert(digit_val(s[0]) >= 1);
    } else {
        let p = s.drop_last();
        assert(all_digits(p));
        assert(p[0] == s[0]);
        lemma_seq_val_pos(p);
        assert(is_digit_char(s.last()));
        assert(seq_val(s) == seq_val(p) * 10 + digit_val(s.last()));
    }
}

/// Dropping trailing digits can only shrink the value.
proof fn lemma_seq_val_prefix_le(s: Seq<char>, m: int)
    requires
        all_digits(s),
        0 <= m <= s.len(),
    ensures
        seq_val(s.subrange(0, m)) <= seq_val(s),
    decreases s.len() - m,
{
    if m == s.len() {
        assert(s.subrange(0, m) =~= s);
    } else {
        let a = s.subrange(0, m);
        let b = s.subrange(0, m + 1);
        assert(b.drop_last() =~= a);
        assert(all_digits(a));
        lemma_seq_val_nonneg(a);
        assert(seq_val(b) == seq_val(a) * 10 + digit_val(s[m]));
        lemma_seq_val_prefix_le(s, m + 1);
    }
}

/// The canonical rendering of `n` is a canonical digit string whose value
/// is `n`, starting with '0' only for `n == 0`.
proof fn lemma_digits_of_props(n: nat)
    ensures
        canon_digits(digits_of(n)),
        seq_val(digits_of(n)) == n,
        digits_of(n)[0] == '0' <==> n == 0,
    decreases n,
{
    if n < 10 {
        let d = digits_of(n);
        assert(d =~= seq![digit_char(n as int)]);
        assert(d.drop_last() =~= Seq::<char>::empty());
        assert(seq_val(Seq::<char>::empty()) == 0);
        assert(d.last() == digit_char(n as int));
        assert(seq_val(d) == digit_val(digit_char(n as int)));
    } else {
        lemma_digits_of_props(n / 10);
        let d = digits_of(n);
        let p = digits_of(n / 10);
        assert(d == p.push(digit_char((n % 10) as int)));
        assert(d.drop_last() =~= p);
        assert(d.last() == digit_char((n % 10) as int));
        assert(digit_val(digit_char((n % 10) as int)) == n % 10);
        assert(seq_val(d) == seq_val(p) * 10 + n % 10);
        assert(seq_val(d) == n);
        assert(d[0] == p[0]);
        assert(forall|j: int| 0 <= j < d.len() ==> is_digit_char(#[trigger] d[j])) by {
            assert(forall|j: int|
                0 <= j < d.len() - 1 ==> #[trigger] d[j] == p[j] && is_digit_char(p[j]));
            assert(is_digit_char(d[d.len() - 1]));
        }
    }
}

/// A canonical digit string is recovered exactly by rendering its value.
proof fn lemma_canon_inverse(s: Seq<char>)
    requires
        canon_digits(s),
    ensures
        seq_val(s) >= 0,
        digits_of(seq_val(s) as nat) == s,
    decreases s.len(),
{
    lemma_seq_val_nonneg(s);
    if s.len() == 1 {
        let c = s[0];
        assert(seq_val(s.drop_last()) == 0) by {
            assert(s.drop_last() =~= Seq::<char>::empty());
        }
        assert(seq_val(s) == digit_val(c));
        assert(digit_char(digit_val(c)) == c);
        assert(digits_of(seq_val(s) as nat) =~= s);
    } else {
        let p = s.drop_last();
        let c = s.last();
        assert(all_digits(p));
        assert(p[0] == s[0]);
        assert(s[0] != '0');
        assert(canon_digits(p));
        lemma_canon_inverse(p);
        lemma_seq_val_pos(p);
        let v = seq_val(s);
        assert(v == seq_val(p) * 10 + digit_val(c));
        assert(digit_val(c) < 10 && digit_val(c) >= 0);
        assert(seq_val(p) >= 1);
        assert(v >= 10);
        assert(v / 10 == seq_val(p) && v % 10 == digit_val(c)) by (nonlinear_arith)
            requires
                v == seq_val(p) * 10 + digit_val(c),
                seq_val(p) >= 1,
                0 <= digit_val(c) < 10,
        ;
        assert(digits_of(v as nat) == digits_of((v / 10) as nat).push(
            digit_char((v % 10) as int),
        ));
        assert(digit_char(digit_val(c)) == c);
        assert(digits_of(v as nat) =~= s) by {
            assert(digits_of((v / 10) as nat) == p);
            assert(p.push(c) =~= s);
        }
    }
}

/// Parsing its canonical text gives back exactly the version rendered.
pub proof fn lemma_parse_of_display(v: Version)
    ensures
        spec_parse(spec_display(v)) == Ok::<Version, VersionError>(v),
{
    let a = digits_of(v.major as nat);
    let b = digits_of(v.minor as nat);
    let c = digits_of(v.patch as nat);
    lemma_digits_of_props(v.major as nat);
    lemma_digits_of_props(v.minor as nat);
    lemma_digits_of_props(v.patch as nat);
    let s = spec_display(v);
    let la = a.len() as int;
    let lb = b.len() as int;
    let lc = c.len() as int;
    assert(s.len() == la + 1 + lb + 1 + lc);
    assert(forall|j: int| 0 <= j < la ==> #[trigger] s[j] == a[j]);
    assert(s[la] == '.');
    assert(forall|j: int| 0 <= j < lb ==> #[trigger] s[la + 1 + j] == b[j]);
    assert(s[la + 1 + lb] == '.');
    assert(forall|j: int| 0 <= j < lc ==> #[trigger] s[la + 1 + lb + 1 + j] == c[j]);
    assert(!is_digit_char('.'));

    assert(digit_run_len(s, 0) == la) by {
        assert(forall|j: int| 0 <= j < la ==> is_digit_char(#[trigger] s[j]));
        lemma_digit_run_exact(s, 0, la);
    }
    assert(s.subrange(0, la) =~= a);
    assert(spec_parse_number(s, 0, Position::Major) == Ok::<(u16, int), VersionError>((
        v.major,
        la,
    ))) by {
        assert(seq_val(s.subrange(0, la)) == v.major as int);
        if a[0] == '0' {
            assert(a.len() == 1);
        }
    }
    assert(spec_parse_dot(s, la, Position::Minor) == Ok::<int, VersionError>(la + 1));

    let i2 = la + 1;
    assert(digit_run_len(s, i2) == lb) by {
        assert(forall|j: int| i2 <= j < i2 + lb ==> is_digit_char(#[trigger] s[j])) by {
            assert(forall|j: int| i2 <= j < i2 + lb ==> #[trigger] s[j] == b[j - i2]);
        }
        lemma_digit_run_exact(s, i2, lb);
    }
    assert(s.subrange(i2, i2 + lb) =~= b);
    assert(spec_parse_number(s, i2, Position::Minor) == Ok::<(u16, int), VersionError>((
        v.minor,
        i2 + lb,
    ))) by {
        assert(seq_val(s.subrange(i2, i2 + lb)) == v.minor as int);
        if b[0] == '0' {
            assert(b.len() == 1);
        }
    }
    assert(spec_parse_dot(s, i2 + lb, Position::Patch) == Ok::<int, VersionError>(i2 + lb + 1));

    let i4 = i2 + lb + 1;
    assert(digit_run_len(s, i4) == lc) by {
        assert(forall|j: int| i4 <= j < i4 + lc ==> is_digit_char(#[trigger] s[j])) by {
            assert(forall|j: int| i4 <= j < i4 + lc ==> #[trigger] s[j] == c[j - i4]);
        }
        lemma_digit_run_exact(s, i4, lc);
    }
    assert(s.subrange(i4, i4 + lc) =~= c);
    assert(spec_parse_number(s, i4, Position::Patch) == Ok::<(u16, int), VersionError>((
        v.patch,
        i4 + lc,
    ))) by {
        assert(seq_val(s.subrange(i4, i4 + lc)) == v.patch as int);
        if c[0] == '0' {
            assert(c.len() == 1);
        }
    }
    assert(i4 + lc == s.len());
}

/// A string the parser accepts is exactly the canonical text of its result.
pub proof fn lemma_display_of_parse(s: Seq<char>, v: Version)
    requires
        spec_parse(s) == Ok::<Version, VersionError>(v),
    ensures
        spec_display(v) == s,
{
    let r1 = digit_run_len(s, 0);
    lemma_digit_run_props(s, 0);
    let a = s.subrange(0, r1);
    assert(spec_parse_number(s, 0, Position::Major) == Ok::<(u16, int), VersionError>((
        v.major,
        r1,
    )));
    assert(all_digits(a));
    assert(canon_digits(a));
    lemma_seq_val_nonneg(a);
    assert(v.major as int == seq_val(a));
    lemma_canon_inverse(a);
    assert(digits_of(v.major as nat) == a);

    assert(s[r1] == '.');
    let i2 = r1 + 1;
    let r2 = digit_run_len(s, i2);
    lemma_digit_run_props(s, i2);
    let b = s.subrange(i2, i2 + r2);
    assert(spec_parse_number(s, i2, Position::Minor) == Ok::<(u16, int), VersionError>((
        v.minor,
        i2 + r2,
    )));
    assert(all_digits(b));
    assert(canon_digits(b)) by {
        assert(b[0] == s[i2]);
    }
    lemma_seq_val_nonneg(b);
    assert(v.minor as int == seq_val(b));
    lemma_canon_inverse(b);
    assert(digits_of(v.minor as nat) == b);

    assert(s[i2 + r2] == '.');
    let i4 = i2 + r2 + 1;
    let r3 = digit_run_len(s, i4);
    lemma_digit_run_props(s, i4);
    let c = s.subrange(i4, i4 + r3);
    assert(spec_parse_number(s, i4, Position::Patch) == Ok::<(u16, int), VersionError>((
        v.patch,
        i4 + r3,
    )));
    assert(all_digits(c));
    assert(canon_digits(c)) by {
        assert(c[0] == s[i4]);
    }
    lemma_seq_val_nonneg(c);
    assert(v.patch as int == seq_val(c));
    lemma_canon_inverse(c);
    assert(digits_of(v.patch as nat) == c);

    assert(i4 + r3 == s.len());
    assert(spec_display(v) =~= s);
}

/// The parser accepts exactly the canonical renderings: success on a string
/// means it is the canonical text of some version, and every canonical text
/// is accepted.
pub proof fn lemma_parse_ok_iff_canonical(s: Seq<char>)
    ensures
        (spec_parse(s) is Ok) <==> (exists|v: Version| s == spec_display(v)),
{
    if spec_parse(s) is Ok {
        let v = spec_parse(s)->Ok_0;
        lemma_display_of_parse(s, v);
        assert(s == spec_display(v));
    }
    if exists|v: Version| s == spec_display(v) {
        let v = choose|v: Version| s == spec_display(v);
        lemma_parse_of_display(v);
    }
}

} // verus!
