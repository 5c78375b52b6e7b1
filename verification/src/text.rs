//! Text helpers: decimal numerals, padding, splitting on a character, and
//! reading an unsigned integer the way `usize::from_str` does.

use vstd::prelude::*;

verus! {

broadcast use vstd::string::group_string_axioms;

/// Appends one character to a string.
///
/// Wraps `String::push`, which std documents as appending the character to
/// the end of the string; the contract says exactly that.
#[verifier::external_body]
pub(crate) fn push_char(s: &mut String, c: char)
    ensures
        final(s)@ == old(s)@.push(c),
{
    s.push(c);
}

/// The character of a decimal digit.
pub open spec fn digit_char(d: int) -> char {
    (48 + d) as char
}

/// The decimal numeral of a natural number, without leading zeros.
pub open spec fn decimal(n: nat) -> Seq<char>
    decreases n,
{
    if n < 10 {
        seq![digit_char(n as int)]
    } else {
        decimal(n / 10).push(digit_char((n % 10) as int))
    }
}

/// The decimal numeral of an integer, with a leading `-` when it is negative.
pub open spec fn decimal_signed(i: int) -> Seq<char> {
    if i < 0 {
        seq!['-'] + decimal((-i) as nat)
    } else {
        decimal(i as nat)
    }
}

/// The numeral of `n`, padded with zeros on the left to at least two digits.
pub open spec fn zero_padded2(n: nat) -> Seq<char> {
    if n < 10 {
        seq!['0'] + decimal(n)
    } else {
        decimal(n)
    }
}

/// `n` spaces.
pub open spec fn spaces(n: nat) -> Seq<char> {
    Seq::new(n, |i: int| ' ')
}

fn digit(d: u64) -> (c: char)
    requires
        d < 10,
    ensures
        c == digit_char(d as int),
{
    ((48u8 + d as u8) as char)
}

/// Appends the decimal numeral of `n`.
pub fn push_decimal(s: &mut String, n: u64)
    ensures
        final(s)@ == old(s)@ + decimal(n as nat),
    decreases n,
{
    if n >= 10 {
        push_decimal(s, n / 10);
    }
    push_char(s, digit(n % 10));
    proof {
        if n >= 10 {
            assert(final(s)@ =~= old(s)@ + decimal(n as nat));
        } else {
            assert(final(s)@ =~= old(s)@ + decimal(n as nat));
        }
    }
}

/// Appends the decimal numeral of `i`, with a `-` when it is negative.
pub fn push_decimal_signed(s: &mut String, i: i64)
    ensures
        final(s)@ == old(s)@ + decimal_signed(i as int),
{
    if i < 0 {
        push_char(s, '-');
        let m: u64 = if i == i64::MIN {
            9_223_372_036_854_775_808u64
        } else {
            (-i) as u64
        };
        push_decimal(s, m);
        assert(final(s)@ =~= old(s)@ + decimal_signed(i as int));
    } else {
        push_decimal(s, i as u64);
    }
}

/// Appends the numeral of `n`, zero-padded to two digits.
pub fn push_zero_padded2(s: &mut String, n: u64)
    ensures
        final(s)@ == old(s)@ + zero_padded2(n as nat),
{
    if n < 10 {
        push_char(s, '0');
    }
    push_decimal(s, n);
    assert(final(s)@ =~= old(s)@ + zero_padded2(n as nat));
}

/// Appends `n` spaces.
pub fn push_spaces(s: &mut String, n: usize)
    ensures
        final(s)@ == old(s)@ + spaces(n as nat),
{
    let mut i: usize = 0;
    while i < n
        invariant
            i <= n,
            s@ == old(s)@ + spaces(i as nat),
        decreases n - i,
    {
        push_char(s, ' ');
        i = i + 1;
        assert(s@ =~= old(s)@ + spaces(i as nat));
    }
}

/// The two strings hold the same characters.
pub fn str_eq(a: &str, b: &str) -> (r: bool)
    ensures
        r == (a@ == b@),
{
    let n = a.unicode_len();
    if n != b.unicode_len() {
        return false;
    }
    let mut i: usize = 0;
    while i < n
        invariant
            n == a@.len() == b@.len(),
            i <= n,
            forall|j: int| 0 <= j < i ==> a@[j] == b@[j],
        decreases n - i,
    {
        if a.get_char(i) != b.get_char(i) {
            return false;
        }
        i = i + 1;
    }
    assert(a@ =~= b@);
    true
}

/// The string holds the character `c`.
pub fn contains_char(s: &str, c: char) -> (r: bool)
    ensures
        r == s@.contains(c),
{
    let n = s.unicode_len();
    let mut i: usize = 0;
    while i < n
        invariant
            n == s@.len(),
            i <= n,
            forall|j: int| 0 <= j < i ==> s@[j] != c,
        decreases n - i,
    {
        if s.get_char(i) == c {
            assert(s@[i as int] == c);
            return true;
        }
        i = i + 1;
    }
    false
}

/// The pieces of `s` between the occurrences of `sep`, in order; there is
/// one more piece than there are occurrences.
pub open spec fn split_on(s: Seq<char>, sep: char) -> Seq<Seq<char>>
    decreases s.len(),
{
    if s.len() == 0 {
        seq![s]
    } else {
        let rest = split_on(s.drop_last(), sep);
        if s.last() == sep {
            rest.push(Seq::empty())
        } else {
            rest.update(rest.len() - 1, rest.last().push(s.last()))
        }
    }
}

proof fn lemma_split_on_nonempty(s: Seq<char>, sep: char)
    ensures
        split_on(s, sep).len() >= 1,
    decreases s.len(),
{
    if s.len() > 0 {
        lemma_split_on_nonempty(s.drop_last(), sep);
    }
}

/// How many times `c` occurs in `s`.
pub open spec fn count_char(s: Seq<char>, c: char) -> nat
    decreases s.len(),
{
    if s.len() == 0 {
        0
    } else {
        count_char(s.drop_last(), c) + if s.last() == c {
            1nat
        } else {
            0nat
        }
    }
}

/// Splitting at `sep` gives one piece more than there are `sep`s.
pub proof fn lemma_split_on_count(s: Seq<char>, sep: char)
    ensures
        split_on(s, sep).len() == count_char(s, sep) + 1,
    decreases s.len(),
{
    if s.len() > 0 {
        lemma_split_on_count(s.drop_last(), sep);
    }
}

/// A character that occurs in `s` is counted.
pub proof fn lemma_count_char_positive(s: Seq<char>, c: char, i: int)
    requires
        0 <= i < s.len(),
        s[i] == c,
    ensures
        count_char(s, c) >= 1,
    decreases s.len(),
{
    if i < s.len() - 1 {
        lemma_count_char_positive(s.drop_last(), c, i);
    }
}

/// Splits `s` at each occurrence of `sep`, as `str::split` with a character does.
pub fn split_char(s: &str, sep: char) -> (r: Vec<String>)
    ensures
        r@.len() == split_on(s@, sep).len(),
        r@.len() >= 1,
        forall|k: int| 0 <= k < r@.len() ==> #[trigger] r@[k]@ == split_on(s@, sep)[k],
{
    let n = s.unicode_len();
    let mut pieces: Vec<String> = Vec::new();
    let mut cur = String::new();
    let mut i: usize = 0;
    proof {
        assert(s@.take(0) =~= Seq::<char>::empty());
    }
    while i < n
        invariant
            n == s@.len(),
            i <= n,
            pieces@.len() + 1 == split_on(s@.take(i as int), sep).len(),
            forall|k: int|
                0 <= k < pieces@.len() ==> #[trigger] pieces@[k]@ == split_on(
                    s@.take(i as int),
                    sep,
                )[k],
            cur@ == split_on(s@.take(i as int), sep).last(),
        decreases n - i,
    {
        let c = s.get_char(i);
        let ghost prev = s@.take(i as int);
        proof {
            lemma_split_on_nonempty(prev, sep);
            assert(s@.take(i + 1).drop_last() =~= prev);
            assert(s@.take(i + 1).last() == c);
        }
        if c == sep {
            let done = cur;
            pieces.push(done);
            cur = String::new();
        } else {
            push_char(&mut cur, c);
        }
        i = i + 1;
        proof {
            let now = split_on(s@.take(i as int), sep);
            assert forall|k: int| 0 <= k < pieces@.len() implies #[trigger] pieces@[k]@ == now[k] by {
            }
        }
    }
    pieces.push(cur);
    proof {
        lemma_split_on_nonempty(s@, sep);
        assert(s@.take(n as int) =~= s@);
        assert forall|k: int| 0 <= k < pieces@.len() implies #[trigger] pieces@[k]@ == split_on(
            s@,
            sep,
        )[k] by {}
    }
    pieces
}

/// Why a numeral could not be read.
#[derive(Clone, Copy, Debug, PartialEq, Eq, Structural)]
pub enum IntErrorKind {
    /// The text is empty.
    Empty,
    /// The text holds a character that is not a decimal digit.
    InvalidDigit,
    /// The number does not fit the integer type.
    PosOverflow,
}

pub open spec fn is_digit(c: char) -> bool {
    '0' <= c <= '9'
}

pub open spec fn digit_value(c: char) -> int {
    c as int - 48
}

/// Reads the digits of `s` after the value `acc` read so far, from left to
/// right, failing at the first character that is not a digit or at the first
/// digit that takes the value past `usize::MAX`.
pub open spec fn read_digits(s: Seq<char>, acc: int) -> Result<int, IntErrorKind>
    decreases s.len(),
{
    if s.len() == 0 {
        Ok(acc)
    } else if !is_digit(s[0]) {
        Err(IntErrorKind::InvalidDigit)
    } else if acc * 10 + digit_value(s[0]) > usize::MAX {
        Err(IntErrorKind::PosOverflow)
    } else {
        read_digits(s.drop_first(), acc * 10 + digit_value(s[0]))
    }
}

/// The result of `usize::from_str` on `s`: an optional `+` then one or more
/// decimal digits, the value at most `usize::MAX`.
pub open spec fn parse_usize_spec(s: Seq<char>) -> Result<int, IntErrorKind> {
    if s.len() == 0 {
        Err(IntErrorKind::Empty)
    } else if s.len() == 1 && (s[0] == '+' || s[0] == '-') {
        Err(IntErrorKind::InvalidDigit)
    } else if s[0] == '+' {
        read_digits(s.drop_first(), 0)
    } else {
        read_digits(s, 0)
    }
}

proof fn lemma_read_digits_bound(s: Seq<char>, acc: int)
    requires
        0 <= acc <= usize::MAX,
    ensures
        read_digits(s, acc) matches Ok(v) ==> 0 <= v <= usize::MAX,
    decreases s.len(),
{
    if s.len() > 0 && is_digit(s[0]) && acc * 10 + digit_value(s[0]) <= usize::MAX {
        lemma_read_digits_bound(s.drop_first(), acc * 10 + digit_value(s[0]));
    }
}

/// Reads an unsigned decimal integer as `usize::from_str` does.
pub fn parse_usize(s: &str) -> (r: Result<usize, IntErrorKind>)
    ensures
        match parse_usize_spec(s@) {
            Ok(v) => r == Ok::<usize, IntErrorKind>(v as usize) && 0 <= v <= usize::MAX,
            Err(e) => r == Err::<usize, IntErrorKind>(e),
        },
{
    let n = s.unicode_len();
    if n == 0 {
        return Err(IntErrorKind::Empty);
    }
    let first = s.get_char(0);
    if n == 1 && (first == '+' || first == '-') {
        return Err(IntErrorKind::InvalidDigit);
    }
    let start: usize = if first == '+' {
        1
    } else {
        0
    };
    let ghost digits = if first == '+' {
        s@.drop_first()
    } else {
        s@
    };
    assert(digits =~= s@.skip(start as int));
    let mut acc: usize = 0;
    let mut i: usize = start;
    while i < n
        invariant
            n == s@.len(),
            start <= i <= n,
            digits =~= s@.skip(start as int),
            parse_usize_spec(s@) == read_digits(digits, 0),
            read_digits(digits, 0) == read_digits(s@.skip(i as int), acc as int),
        decreases n - i,
    {
        let c = s.get_char(i);
        let ghost rest = s@.skip(i as int);
        assert(rest[0] == c);
        assert(rest.drop_first() =~= s@.skip(i + 1));
        if !('0' <= c && c <= '9') {
            return Err(IntErrorKind::InvalidDigit);
        }
        let d: usize = (c as u32 - 48) as usize;
        match acc.checked_mul(10) {
            None => {
                return Err(IntErrorKind::PosOverflow);
            },
            Some(m) => match m.checked_add(d) {
                None => {
                    return Err(IntErrorKind::PosOverflow);
                },
                Some(v) => {
                    acc = v;
                },
            },
        }
        i = i + 1;
    }
    assert(s@.skip(n as int).len() == 0);
    proof {
        lemma_read_digits_bound(digits, 0);
    }
    Ok(acc)
}

} // verus!
