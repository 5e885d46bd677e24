//! Versions as ordered triples of numbers.

use vstd::prelude::*;
use crate::error::{DepError, Failure};
use crate::text::{
    chars_of, copy_range, lemma_split_append, lemma_split_without_separator, split_chars, split_on,
    string_of, texts,
};

verus! {

/// A version: major, minor and patch number, ordered in that order.
#[derive(PartialOrd, Ord, PartialEq, Eq, Structural, Clone, Copy, Debug)]
pub struct OrdVersion(pub u32, pub u32, pub u32);

/// Whether `c` is one of the digits `0` to `9`.
pub open spec fn is_digit(c: char) -> bool {
    '0' <= c && c <= '9'
}

/// The number that a run of digits denotes in base ten.
pub open spec fn digits_value(s: Seq<char>) -> nat
    decreases s.len(),
{
    if s.len() == 0 {
        0
    } else {
        digits_value(s.drop_last()) * 10 + (s.last() as nat - '0' as nat) as nat
    }
}

/// Whether every character of `s` is a digit.
pub open spec fn all_digits(s: Seq<char>) -> bool {
    forall|i: int| 0 <= i < s.len() ==> is_digit(#[trigger] s[i])
}

/// The number that one component of a version denotes: one or more digits,
/// with an optional `+` in front, whose value fits in 32 bits.
pub open spec fn number(s: Seq<char>) -> Option<u32> {
    let body = if s.len() > 0 && s[0] == '+' {
        s.drop_first()
    } else {
        s
    };
    if body.len() > 0 && all_digits(body) && digits_value(body) <= u32::MAX {
        Some(digits_value(body) as u32)
    } else {
        None
    }
}

/// The part of `s` before its first `-`; all of `s` if it has none.
pub open spec fn until_dash(s: Seq<char>) -> Seq<char>
    decreases s.len(),
{
    if s.len() == 0 || s[0] == '-' {
        Seq::empty()
    } else {
        seq![s[0]] + until_dash(s.drop_first())
    }
}

/// `s` without the run of non-digits that it starts with.
pub open spec fn skip_marker(s: Seq<char>) -> Seq<char>
    decreases s.len(),
{
    if s.len() > 0 && !is_digit(s[0]) {
        skip_marker(s.drop_first())
    } else {
        s
    }
}

/// The version that a text denotes, if any.
///
/// What follows the first `-` is a suffix and is left out. A leading run of
/// non-digits is left out too. The rest must be one, two or three numbers
/// separated by `.`; the numbers that are missing are zero.
pub open spec fn version_of(s: Seq<char>) -> Option<OrdVersion> {
    let parts = split_on(skip_marker(until_dash(s)), '.');
    if parts.len() == 1 {
        match number(parts[0]) {
            Some(a) => Some(OrdVersion(a, 0, 0)),
            None => None,
        }
    } else if parts.len() == 2 {
        match (number(parts[0]), number(parts[1])) {
            (Some(a), Some(b)) => Some(OrdVersion(a, b, 0)),
            _ => None,
        }
    } else if parts.len() == 3 {
        match (number(parts[0]), number(parts[1]), number(parts[2])) {
            (Some(a), Some(b), Some(c)) => Some(OrdVersion(a, b, c)),
            _ => None,
        }
    } else {
        None
    }
}

/// The digit character for a value below ten.
pub open spec fn digit_char(d: nat) -> char {
    if d == 0 {
        '0'
    } else if d == 1 {
        '1'
    } else if d == 2 {
        '2'
    } else if d == 3 {
        '3'
    } else if d == 4 {
        '4'
    } else if d == 5 {
        '5'
    } else if d == 6 {
        '6'
    } else if d == 7 {
        '7'
    } else if d == 8 {
        '8'
    } else {
        '9'
    }
}

/// The base-ten text of a number, without leading zeros.
pub open spec fn decimal(n: nat) -> Seq<char>
    decreases n,
{
    if n < 10 {
        seq![digit_char(n)]
    } else {
        decimal(n / 10).push(digit_char(n % 10))
    }
}

impl OrdVersion {
    /// Whether `self` comes strictly before `other`.
    pub open spec fn precedes(self, other: OrdVersion) -> bool {
        self.0 < other.0 || (self.0 == other.0 && (self.1 < other.1 || (self.1 == other.1 && self.2
            < other.2)))
    }

    /// Whether `self` comes before `other` or equals it.
    pub open spec fn at_most(self, other: OrdVersion) -> bool {
        self.precedes(other) || self == other
    }

    /// The text `major.minor.patch`.
    pub open spec fn text(self) -> Seq<char> {
        decimal(self.0 as nat) + seq!['.'] + decimal(self.1 as nat) + seq!['.'] + decimal(
            self.2 as nat,
        )
    }

    /// Whether `self` comes strictly before `other`.
    pub fn is_before(&self, other: &OrdVersion) -> (r: bool)
        ensures
            r == self.precedes(*other),
    {
        self.0 < other.0 || (self.0 == other.0 && (self.1 < other.1 || (self.1 == other.1 && self.2
            < other.2)))
    }

    /// Reads a version from its text.
    pub fn parse(s: &str) -> (r: Result<OrdVersion, DepError>)
        ensures
            match r {
                Ok(v) => version_of(s@) == Some(v),
                Err(e) => version_of(s@) is None && e@ == Failure::MalformedVersion,
            },
    {
        let v = chars_of(s);
        match parse_version_chars(&v) {
            Some(version) => Ok(version),
            None => Err(DepError::MalformedVersion),
        }
    }

    /// The text `major.minor.patch`.
    pub fn to_string(&self) -> (out: String)
        ensures
            out@ == self.text(),
    {
        let mut buf: Vec<char> = Vec::new();
        push_decimal(&mut buf, self.0 as u64);
        buf.push('.');
        push_decimal(&mut buf, self.1 as u64);
        buf.push('.');
        push_decimal(&mut buf, self.2 as u64);
        string_of(&buf)
    }
}

impl Default for OrdVersion {
    fn default() -> (v: OrdVersion)
        ensures
            v == OrdVersion(0, 0, 0),
    {
        OrdVersion(0, 0, 0)
    }
}

/// Appends the base-ten text of `n` to `buf`.
pub fn push_decimal(buf: &mut Vec<char>, n: u64)
    ensures
        final(buf)@ == old(buf)@ + decimal(n as nat),
    decreases n,
{
    if n >= 10 {
        push_decimal(buf, n / 10);
    }
    let d: u64 = n % 10;
    let c = if d == 0 {
        '0'
    } else if d == 1 {
        '1'
    } else if d == 2 {
        '2'
    } else if d == 3 {
        '3'
    } else if d == 4 {
        '4'
    } else if d == 5 {
        '5'
    } else if d == 6 {
        '6'
    } else if d == 7 {
        '7'
    } else if d == 8 {
        '8'
    } else {
        '9'
    };
    buf.push(c);
    proof {
        assert(final(buf)@ =~= old(buf)@ + decimal(n as nat));
    }
}

/// The end of the part of `v` before its first `-`.
fn dash_position(v: &Vec<char>) -> (i: usize)
    ensures
        i <= v.len(),
        v@.take(i as int) == until_dash(v@),
{
    let mut i: usize = 0;
    proof {
        assert(v@.skip(0) =~= v@);
        assert(v@.take(0) + until_dash(v@) =~= until_dash(v@));
    }
    while i < v.len() && v[i] != '-'
        invariant
            i <= v.len(),
            until_dash(v@) == v@.take(i as int) + until_dash(v@.skip(i as int)),
        decreases v.len() - i,
    {
        proof {
            let rest = v@.skip(i as int);
            assert(rest.drop_first() =~= v@.skip(i + 1));
            assert(v@.take(i as int) + (seq![rest[0]] + until_dash(rest.drop_first())) =~= v@.take(
                i + 1,
            ) + until_dash(v@.skip(i + 1)));
        }
        i += 1;
    }
    proof {
        assert(until_dash(v@.skip(i as int)) =~= Seq::<char>::empty());
        assert(v@.take(i as int) + Seq::<char>::empty() =~= v@.take(i as int));
    }
    i
}

/// The start of the first digit of `v[..end]`, or `end` if it has none.
fn marker_end(v: &Vec<char>, end: usize) -> (i: usize)
    requires
        end <= v.len(),
    ensures
        i <= end,
        v@.subrange(i as int, end as int) == skip_marker(v@.take(end as int)),
{
    let mut i: usize = 0;
    proof {
        assert(v@.subrange(0, end as int) =~= v@.take(end as int));
    }
    while i < end && !(v[i] >= '0' && v[i] <= '9')
        invariant
            i <= end <= v.len(),
            skip_marker(v@.take(end as int)) == skip_marker(v@.subrange(i as int, end as int)),
        decreases end - i,
    {
        proof {
            assert(v@.subrange(i as int, end as int).drop_first() =~= v@.subrange(
                i + 1,
                end as int,
            ));
        }
        i += 1;
    }
    i
}

/// The number that one component denotes.
pub fn parse_number(v: &Vec<char>) -> (r: Option<u32>)
    ensures
        r == number(v@),
{
    let n = v.len();
    let start: usize = if n > 0 && v[0] == '+' {
        1
    } else {
        0
    };
    if start == n {
        return None;
    }
    let ghost body = v@.subrange(start as int, n as int);
    proof {
        if start == 1 {
            assert(v@.drop_first() =~= body);
        } else {
            assert(v@ =~= body);
        }
    }
    let mut acc: u64 = 0;
    let mut i: usize = start;
    while i < n
        invariant
            start <= i <= n == v.len(),
            body == v@.subrange(start as int, n as int),
            body == if v@.len() > 0 && v@[0] == '+' {
                v@.drop_first()
            } else {
                v@
            },
            all_digits(body.take(i - start)),
            acc == digits_value(body.take(i - start)),
            acc <= u32::MAX,
        decreases n - i,
    {
        let c = v[i];
        let ghost k = i - start;
        proof {
            assert(body[k] == c);
            assert(body.take(k + 1).drop_last() =~= body.take(k));
            assert(body.take(k + 1).last() == c);
        }
        if !(c >= '0' && c <= '9') {
            proof {
                assert(!is_digit(body[k]));
                assert(!all_digits(body));
                assert(number(v@) is None);
            }
            return None;
        }
        let d: u64 = (c as u32 - '0' as u32) as u64;
        let next: u64 = acc * 10 + d;
        assert(digits_value(body.take(k + 1)) == next);
        if next > 0xffff_ffff {
            proof {
                lemma_value_grows(body, k + 1);
                assert(digits_value(body) > u32::MAX);
                assert(number(v@) is None);
            }
            return None;
        }
        proof {
            assert forall|j: int| 0 <= j < body.take(k + 1).len() implies is_digit(
                #[trigger] body.take(k + 1)[j],
            ) by {
                if j < k {
                    assert(body.take(k)[j] == body.take(k + 1)[j]);
                }
            }
        }
        acc = next;
        i += 1;
    }
    proof {
        assert(body.take(n - start) =~= body);
    }
    Some(acc as u32)
}

/// The value of a run of digits is at least the value of each of its
/// beginnings.
pub proof fn lemma_value_grows(s: Seq<char>, n: int)
    requires
        0 <= n <= s.len(),
    ensures
        digits_value(s.take(n)) <= digits_value(s),
    decreases s.len() - n,
{
    if n < s.len() {
        lemma_value_grows(s, n + 1);
        assert(s.take(n + 1).drop_last() =~= s.take(n));
        assert(digits_value(s.take(n + 1)) >= digits_value(s.take(n)) * 10) by {
            assert(s.take(n + 1).len() > 0);
        }
    } else {
        assert(s.take(n) =~= s);
    }
}

/// The version that the characters `v` denote, if any.
pub fn parse_version_chars(v: &Vec<char>) -> (r: Option<OrdVersion>)
    ensures
        r == version_of(v@),
{
    let end = dash_position(v);
    let begin = marker_end(v, end);
    let core = copy_range(v, begin, end);
    let parts = split_chars(&core, '.');
    proof {
        assert(texts(parts@) == split_on(skip_marker(until_dash(v@)), '.'));
        assert(texts(parts@).len() == parts@.len());
        assert forall|i: int| 0 <= i < parts@.len() implies texts(parts@)[i] == parts@[i]@ by {}
    }
    if parts.len() == 1 {
        match parse_number(&parts[0]) {
            Some(a) => Some(OrdVersion(a, 0, 0)),
            None => None,
        }
    } else if parts.len() == 2 {
        match (parse_number(&parts[0]), parse_number(&parts[1])) {
            (Some(a), Some(b)) => Some(OrdVersion(a, b, 0)),
            _ => None,
        }
    } else if parts.len() == 3 {
        match (parse_number(&parts[0]), parse_number(&parts[1]), parse_number(&parts[2])) {
            (Some(a), Some(b), Some(c)) => Some(OrdVersion(a, b, c)),
            _ => None,
        }
    } else {
        None
    }
}

/// Of two versions, one comes before the other or they are equal, and only
/// one of the three holds.
pub proof fn lemma_order_total(a: OrdVersion, b: OrdVersion)
    ensures
        a.precedes(b) || b.precedes(a) || a == b,
        !(a.precedes(b) && b.precedes(a)),
        !(a.precedes(b) && a == b),
{
}

/// The order of versions is transitive.
pub proof fn lemma_order_transitive(a: OrdVersion, b: OrdVersion, c: OrdVersion)
    requires
        a.precedes(b),
        b.precedes(c),
    ensures
        a.precedes(c),
{
}

/// The base-ten text of a number is made of digits, and denotes the number.
pub proof fn lemma_decimal(n: nat)
    ensures
        decimal(n).len() >= 1,
        all_digits(decimal(n)),
        digits_value(decimal(n)) == n,
    decreases n,
{
    if n < 10 {
        let s = decimal(n);
        assert(s.drop_last() =~= Seq::<char>::empty());
        assert(digits_value(s.drop_last()) == 0);
        assert(s.last() == digit_char(n));
    } else {
        lemma_decimal(n / 10);
        let s = decimal(n);
        let front = decimal(n / 10);
        assert(s.drop_last() =~= front);
        assert(s.last() == digit_char(n % 10));
        assert forall|i: int| 0 <= i < s.len() implies is_digit(#[trigger] s[i]) by {
            if i < front.len() {
                assert(s[i] == front[i]);
            }
        }
    }
}

/// A text without `-` has no suffix.
pub proof fn lemma_without_dash(s: Seq<char>)
    requires
        forall|i: int| 0 <= i < s.len() ==> s[i] != '-',
    ensures
        until_dash(s) == s,
    decreases s.len(),
{
    if s.len() > 0 {
        let rest = s.drop_first();
        assert forall|i: int| 0 <= i < rest.len() implies rest[i] != '-' by {
            assert(rest[i] == s[i + 1]);
        }
        lemma_without_dash(rest);
        assert(seq![s[0]] + rest =~= s);
    } else {
        assert(s =~= Seq::<char>::empty());
    }
}

/// Three texts without `.`, written with `.` between them, are the three
/// pieces of what was written.
pub proof fn lemma_split_three(a: Seq<char>, b: Seq<char>, c: Seq<char>)
    requires
        forall|i: int| 0 <= i < a.len() ==> a[i] != '.',
        forall|i: int| 0 <= i < b.len() ==> b[i] != '.',
        forall|i: int| 0 <= i < c.len() ==> c[i] != '.',
    ensures
        split_on(a + seq!['.'] + b + seq!['.'] + c, '.') == seq![a, b, c],
{
    let empty = Seq::<char>::empty();
    lemma_split_without_separator(a, '.');
    let first = a + seq!['.'];
    assert(first.drop_last() =~= a);
    assert(split_on(first, '.') =~= seq![a, empty]);
    lemma_split_append(first, b, '.');
    let second = first + b;
    assert(split_on(second, '.') =~= seq![a, b]) by {
        assert(empty + b =~= b);
    }
    let third = second + seq!['.'];
    assert(third.drop_last() =~= second);
    assert(split_on(third, '.') =~= seq![a, b, empty]);
    lemma_split_append(third, c, '.');
    assert(split_on(third + c, '.') =~= seq![a, b, c]) by {
        assert(empty + c =~= c);
    }
}

/// The base-ten text of a number that fits in 32 bits denotes it as a
/// component of a version.
pub proof fn lemma_number_of_decimal(n: u32)
    ensures
        number(decimal(n as nat)) == Some(n),
{
    lemma_decimal(n as nat);
    assert(is_digit(decimal(n as nat)[0]));
}

/// The text of a version denotes that version.
pub proof fn lemma_text_reads_back(v: OrdVersion)
    ensures
        version_of(v.text()) == Some(v),
{
    let a = decimal(v.0 as nat);
    let b = decimal(v.1 as nat);
    let c = decimal(v.2 as nat);
    let s = v.text();
    lemma_decimal(v.0 as nat);
    lemma_decimal(v.1 as nat);
    lemma_decimal(v.2 as nat);
    lemma_number_of_decimal(v.0);
    lemma_number_of_decimal(v.1);
    lemma_number_of_decimal(v.2);
    assert forall|i: int| 0 <= i < s.len() implies s[i] != '-' by {
        if i < a.len() {
            assert(s[i] == a[i]);
        } else if i == a.len() {
        } else if i < a.len() + 1 + b.len() {
            assert(s[i] == b[i - a.len() - 1]);
        } else if i == a.len() + 1 + b.len() {
        } else {
            assert(s[i] == c[i - a.len() - b.len() - 2]);
        }
    }
    lemma_without_dash(s);
    assert(s[0] == a[0]);
    assert(skip_marker(s) == s);
    assert forall|i: int| 0 <= i < a.len() implies a[i] != '.' by {
        assert(is_digit(a[i]));
    }
    assert forall|i: int| 0 <= i < b.len() implies b[i] != '.' by {
        assert(is_digit(b[i]));
    }
    assert forall|i: int| 0 <= i < c.len() implies c[i] != '.' by {
        assert(is_digit(c[i]));
    }
    lemma_split_three(a, b, c);
}

} // verus!
