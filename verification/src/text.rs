//! Character-level text operations on file names: whitespace trimming,
//! dropping characters, and reading and writing decimal numbers.
use vstd::prelude::*;

verus! {

// ---------------------------------------------------------------------------
// Whitespace and trimming
// ---------------------------------------------------------------------------

/// The Unicode `White_Space` characters, which `char::is_whitespace` accepts.
pub open spec fn is_space(c: char) -> bool {
    ||| ('\t' <= c && c <= '\r')
    ||| c == ' '
    ||| c == '\u{85}'
    ||| c == '\u{a0}'
    ||| c == '\u{1680}'
    ||| ('\u{2000}' <= c && c <= '\u{200a}')
    ||| c == '\u{2028}'
    ||| c == '\u{2029}'
    ||| c == '\u{202f}'
    ||| c == '\u{205f}'
    ||| c == '\u{3000}'
}

/// `s` without its leading whitespace.
pub open spec fn trim_start(s: Seq<char>) -> Seq<char>
    decreases s.len(),
{
    if s.len() > 0 && is_space(s[0]) {
        trim_start(s.drop_first())
    } else {
        s
    }
}

/// `s` without its trailing whitespace.
pub open spec fn trim_end(s: Seq<char>) -> Seq<char>
    decreases s.len(),
{
    if s.len() > 0 && is_space(s.last()) {
        trim_end(s.drop_last())
    } else {
        s
    }
}

/// `s` without leading and trailing whitespace (what `str::trim` gives).
pub open spec fn trim(s: Seq<char>) -> Seq<char> {
    trim_end(trim_start(s))
}

/// A text whose first and last characters (if any) are not whitespace.
pub open spec fn is_trimmed(s: Seq<char>) -> bool {
    s.len() > 0 ==> !is_space(s[0]) && !is_space(s.last())
}

pub fn is_space_char(c: char) -> (res: bool)
    ensures
        res == is_space(c),
{
    ('\t' <= c && c <= '\r') || c == ' ' || c == '\u{85}' || c == '\u{a0}' || c == '\u{1680}'
        || ('\u{2000}' <= c && c <= '\u{200a}') || c == '\u{2028}' || c == '\u{2029}' || c
        == '\u{202f}' || c == '\u{205f}' || c == '\u{3000}'
}

/// `String::push`: appends one character.
#[verifier::external_body]
pub(crate) fn push_char(s: &mut String, c: char)
    ensures
        final(s)@ == old(s)@.push(c),
{
    s.push(c);
}

/// The text of `s` without leading and trailing whitespace.
pub fn trim_text(s: &str) -> (res: String)
    ensures
        res@ == trim(s@),
{
    let n: usize = s.unicode_len();
    let mut i: usize = 0;
    assert(s@.skip(0) =~= s@);
    while i < n && is_space_char(s.get_char(i))
        invariant
            n == s@.len(),
            i <= n,
            trim_start(s@) == trim_start(s@.skip(i as int)),
        decreases n - i,
    {
        assert(s@.skip(i as int).drop_first() =~= s@.skip(i + 1));
        i = i + 1;
    }
    assert(trim_start(s@) == s@.subrange(i as int, n as int)) by {
        assert(s@.skip(i as int) =~= s@.subrange(i as int, n as int));
    }
    let mut j: usize = n;
    while j > i && is_space_char(s.get_char(j - 1))
        invariant
            n == s@.len(),
            i <= j <= n,
            trim(s@) == trim_end(s@.subrange(i as int, j as int)),
        decreases j,
    {
        assert(s@.subrange(i as int, j as int).drop_last() =~= s@.subrange(i as int, j - 1));
        j = j - 1;
    }
    let mut res = String::new();
    let mut k: usize = i;
    while k < j
        invariant
            n == s@.len(),
            i <= k <= j <= n,
            res@ =~= s@.subrange(i as int, k as int),
        decreases j - k,
    {
        push_char(&mut res, s.get_char(k));
        k = k + 1;
    }
    res
}

/// Trimming leaves a text without whitespace at either end.
pub proof fn lemma_trim_is_trimmed(s: Seq<char>)
    ensures
        is_trimmed(trim(s)),
{
    lemma_trim_start_first(s);
    lemma_trim_end_prefix(trim_start(s));
}

/// Trimming twice is trimming once.
pub proof fn lemma_trim_idempotent(s: Seq<char>)
    ensures
        trim(trim(s)) == trim(s),
{
    lemma_trim_is_trimmed(s);
    lemma_trimmed_fixed(trim(s));
}

/// A text without whitespace at its ends is its own trimming.
pub proof fn lemma_trimmed_fixed(s: Seq<char>)
    requires
        is_trimmed(s),
    ensures
        trim(s) == s,
{
    assert(trim_start(s) == s);
    assert(trim_end(s) == s);
}

proof fn lemma_trim_start_first(s: Seq<char>)
    ensures
        trim_start(s).len() > 0 ==> !is_space(trim_start(s)[0]),
    decreases s.len(),
{
    if s.len() > 0 && is_space(s[0]) {
        lemma_trim_start_first(s.drop_first());
    }
}

/// `trim_end(t)` is a prefix of `t` whose last character (if any) is not whitespace.
proof fn lemma_trim_end_prefix(t: Seq<char>)
    ensures
        trim_end(t).len() <= t.len(),
        trim_end(t) == t.subrange(0, trim_end(t).len() as int),
        trim_end(t).len() > 0 ==> !is_space(trim_end(t).last()),
    decreases t.len(),
{
    if t.len() > 0 && is_space(t.last()) {
        lemma_trim_end_prefix(t.drop_last());
        assert(t.drop_last().subrange(0, trim_end(t).len() as int) =~= t.subrange(
            0,
            trim_end(t).len() as int,
        ));
    } else {
        assert(t.subrange(0, t.len() as int) =~= t);
    }
}

// ---------------------------------------------------------------------------
// ASCII letter case
// ---------------------------------------------------------------------------

/// Every character of `s` is ASCII.
pub open spec fn is_ascii_text(s: Seq<char>) -> bool {
    forall|i: int| 0 <= i < s.len() ==> (#[trigger] s[i]) <= '\x7f'
}

/// `c` with `A`..`Z` turned into `a`..`z`.
pub open spec fn ascii_lower_char(c: char) -> char {
    if 'A' <= c && c <= 'Z' {
        ((c as u32) + 32) as char
    } else {
        c
    }
}

/// `c` with `a`..`z` turned into `A`..`Z`.
pub open spec fn ascii_upper_char(c: char) -> char {
    if 'a' <= c && c <= 'z' {
        ((c as u32) - 32) as char
    } else {
        c
    }
}

/// What `str::to_ascii_lowercase` gives.
pub open spec fn ascii_lower(s: Seq<char>) -> Seq<char> {
    s.map_values(|c: char| ascii_lower_char(c))
}

/// What `str::to_ascii_uppercase` gives.
pub open spec fn ascii_upper(s: Seq<char>) -> Seq<char> {
    s.map_values(|c: char| ascii_upper_char(c))
}

/// Changing the case of ASCII letters keeps a text ASCII and does not change
/// its lowercase form.
pub proof fn lemma_ascii_case_change(s: Seq<char>)
    requires
        is_ascii_text(s),
    ensures
        is_ascii_text(ascii_upper(s)),
        is_ascii_text(ascii_lower(s)),
        ascii_lower(ascii_upper(s)) == ascii_lower(s),
        ascii_lower(ascii_lower(s)) == ascii_lower(s),
{
    assert forall|i: int| 0 <= i < s.len() implies (#[trigger] ascii_upper(s)[i]) <= '\x7f'
        && ascii_lower(s)[i] <= '\x7f' && ascii_lower_char(ascii_upper_char(s[i]))
        == ascii_lower_char(s[i]) && ascii_lower_char(ascii_lower_char(s[i])) == ascii_lower_char(
        s[i],
    ) by {
        let c = s[i];
        if 'a' <= c && c <= 'z' {
            assert(ascii_upper_char(c) as u32 == c as u32 - 32);
        }
        if 'A' <= c && c <= 'Z' {
            assert(ascii_lower_char(c) as u32 == c as u32 + 32);
        }
    }
    assert(ascii_lower(ascii_upper(s)) =~= ascii_lower(s));
    assert(ascii_lower(ascii_lower(s)) =~= ascii_lower(s));
}

// ---------------------------------------------------------------------------
// Dropping characters
// ---------------------------------------------------------------------------

/// `s` with every character that occurs in `bad` dropped, the others kept in order.
pub open spec fn without(s: Seq<char>, bad: Seq<char>) -> Seq<char>
    decreases s.len(),
{
    if s.len() == 0 {
        s
    } else if bad.contains(s.last()) {
        without(s.drop_last(), bad)
    } else {
        without(s.drop_last(), bad).push(s.last())
    }
}

/// Drops from `s` every character that occurs in `bad` (as `str::replace` with
/// each single-character pattern and an empty replacement does, one after the other).
pub fn strip_chars(s: &str, bad: &[char]) -> (res: String)
    ensures
        res@ == without(s@, bad@),
{
    let n: usize = s.unicode_len();
    let mut res = String::new();
    let mut i: usize = 0;
    while i < n
        invariant
            n == s@.len(),
            i <= n,
            res@ == without(s@.subrange(0, i as int), bad@),
        decreases n - i,
    {
        let c = s.get_char(i);
        let mut found = false;
        let mut k: usize = 0;
        while k < bad.len()
            invariant
                k <= bad@.len(),
                found <==> exists|m: int| 0 <= m < k && bad@[m] == c,
            decreases bad@.len() - k,
        {
            if bad[k] == c {
                found = true;
            }
            k = k + 1;
        }
        assert(found <==> bad@.contains(c));
        assert(s@.subrange(0, i + 1).drop_last() =~= s@.subrange(0, i as int));
        if !found {
            push_char(&mut res, c);
        }
        i = i + 1;
    }
    assert(s@.subrange(0, n as int) =~= s@);
    res
}

/// No dropped character is left.
pub proof fn lemma_without_excludes(s: Seq<char>, bad: Seq<char>)
    ensures
        forall|i: int| 0 <= i < without(s, bad).len() ==> !bad.contains(#[trigger] without(s, bad)[i]),
    decreases s.len(),
{
    if s.len() > 0 {
        lemma_without_excludes(s.drop_last(), bad);
        let w = without(s, bad);
        let p = without(s.drop_last(), bad);
        if !bad.contains(s.last()) {
            assert forall|i: int| 0 <= i < w.len() implies !bad.contains(#[trigger] w[i]) by {
                if i < p.len() {
                    assert(w[i] == p[i]);
                }
            }
        }
    }
}

/// A text holding none of the dropped characters is left as it is.
pub proof fn lemma_without_keeps_clean(s: Seq<char>, bad: Seq<char>)
    requires
        forall|i: int| 0 <= i < s.len() ==> !bad.contains(#[trigger] s[i]),
    ensures
        without(s, bad) == s,
    decreases s.len(),
{
    if s.len() > 0 {
        assert(!bad.contains(s[s.len() - 1]));
        lemma_without_keeps_clean(s.drop_last(), bad);
        assert(s.drop_last().push(s.last()) =~= s);
    }
}

/// Dropping the same characters twice is dropping them once.
pub proof fn lemma_without_idempotent(s: Seq<char>, bad: Seq<char>)
    ensures
        without(without(s, bad), bad) == without(s, bad),
{
    lemma_without_excludes(s, bad);
    lemma_without_keeps_clean(without(s, bad), bad);
}

/// Dropping characters is filtering by "not one of them".
pub proof fn lemma_without_is_filter(s: Seq<char>, bad: Seq<char>)
    ensures
        without(s, bad) == s.filter(|c: char| !bad.contains(c)),
    decreases s.len(),
{
    reveal_with_fuel(Seq::filter, 1);
    if s.len() > 0 {
        lemma_without_is_filter(s.drop_last(), bad);
    }
}

/// Dropping characters from a concatenation drops them from each part.
pub proof fn lemma_without_concat(a: Seq<char>, b: Seq<char>, bad: Seq<char>)
    ensures
        without(a + b, bad) == without(a, bad) + without(b, bad),
    decreases b.len(),
{
    if b.len() == 0 {
        assert(a + b =~= a);
        assert(without(a, bad) + without(b, bad) =~= without(a, bad));
    } else {
        assert((a + b).drop_last() =~= a + b.drop_last());
        assert((a + b).last() == b.last());
        lemma_without_concat(a, b.drop_last(), bad);
        if bad.contains(b.last()) {
        } else {
            assert(without(a, bad) + without(b.drop_last(), bad).push(b.last()) =~= (without(a, bad)
                + without(b.drop_last(), bad)).push(b.last()));
        }
    }
}

/// Every character of the trimmed text is a character of the text.
pub proof fn lemma_trim_within(s: Seq<char>)
    ensures
        forall|i: int| 0 <= i < trim(s).len() ==> s.contains(#[trigger] trim(s)[i]),
{
    lemma_trim_start_skip(s);
    lemma_trim_end_prefix(trim_start(s));
    let k = s.len() - trim_start(s).len();
    assert forall|i: int| 0 <= i < trim(s).len() implies s.contains(#[trigger] trim(s)[i]) by {
        assert(trim(s)[i] == trim_start(s)[i]);
        assert(trim_start(s)[i] == s[k + i]);
    }
}

proof fn lemma_trim_start_skip(s: Seq<char>)
    ensures
        trim_start(s).len() <= s.len(),
        trim_start(s) == s.skip(s.len() - trim_start(s).len()),
    decreases s.len(),
{
    if s.len() > 0 && is_space(s[0]) {
        lemma_trim_start_skip(s.drop_first());
        assert(s.drop_first().skip(s.drop_first().len() - trim_start(s).len()) =~= s.skip(
            s.len() - trim_start(s).len(),
        ));
    } else {
        assert(s.skip(0) =~= s);
    }
}

// ---------------------------------------------------------------------------
// Decimal numbers
// ---------------------------------------------------------------------------

pub open spec fn is_digit(c: char) -> bool {
    '0' <= c && c <= '9'
}

pub open spec fn digit_value(c: char) -> nat {
    (c as u32 - '0' as u32) as nat
}

pub open spec fn digit_of(d: nat) -> char {
    ((d + '0' as u32) as u32) as char
}

/// All characters of `s` are ASCII digits.
pub open spec fn all_digits(s: Seq<char>) -> bool {
    forall|i: int| 0 <= i < s.len() ==> is_digit(#[trigger] s[i])
}

/// The number that the digits `s` write in base ten.
pub open spec fn digits_value(s: Seq<char>) -> nat
    decreases s.len(),
{
    if s.len() == 0 {
        0
    } else {
        digits_value(s.drop_last()) * 10 + digit_value(s.last())
    }
}

/// What `str::parse::<u32>` gives: an optional `+` sign, then one or more ASCII
/// digits whose value fits in a `u32`; anything else is refused.
pub open spec fn parse_u32_spec(s: Seq<char>) -> Option<u32> {
    let digits = if s.len() > 0 && s[0] == '+' {
        s.drop_first()
    } else {
        s
    };
    if digits.len() > 0 && all_digits(digits) && digits_value(digits) <= u32::MAX {
        Some(digits_value(digits) as u32)
    } else {
        None
    }
}

/// The shortest decimal writing of `n` (what `{}` prints for an unsigned number).
pub open spec fn decimal(n: nat) -> Seq<char>
    decreases n,
{
    if n < 10 {
        seq![digit_of(n)]
    } else {
        decimal(n / 10).push(digit_of(n % 10))
    }
}

/// The decimal writing of `n` padded with zeros to at least two characters
/// (what `{:02}` prints).
pub open spec fn decimal_pad2(n: nat) -> Seq<char> {
    if n < 10 {
        seq!['0', digit_of(n)]
    } else {
        decimal(n)
    }
}

proof fn lemma_digits_prefix_le(s: Seq<char>, i: int)
    requires
        0 <= i <= s.len(),
    ensures
        digits_value(s.subrange(0, i)) <= digits_value(s),
    decreases s.len() - i,
{
    if i < s.len() {
        lemma_digits_prefix_le(s, i + 1);
        assert(s.subrange(0, i + 1).drop_last() =~= s.subrange(0, i));
    } else {
        assert(s.subrange(0, i) =~= s);
    }
}

/// Reads a `u32` written in decimal, as `str::parse::<u32>` does.
pub fn parse_u32(s: &str) -> (res: Option<u32>)
    ensures
        res == parse_u32_spec(s@),
{
    let n: usize = s.unicode_len();
    let mut start: usize = 0;
    if n > 0 && s.get_char(0) == '+' {
        start = 1;
    }
    let ghost digits = if s@.len() > 0 && s@[0] == '+' {
        s@.drop_first()
    } else {
        s@
    };
    assert(digits =~= s@.subrange(start as int, n as int));
    if start == n {
        return None;
    }
    let mut value: u64 = 0;
    let mut i: usize = start;
    while i < n
        invariant
            n == s@.len(),
            start <= i <= n,
            digits == s@.subrange(start as int, n as int),
            digits == (if s@.len() > 0 && s@[0] == '+' {
                s@.drop_first()
            } else {
                s@
            }),
            all_digits(s@.subrange(start as int, i as int)),
            value == digits_value(s@.subrange(start as int, i as int)),
            value <= u32::MAX,
        decreases n - i,
    {
        let c = s.get_char(i);
        if !('0' <= c && c <= '9') {
            assert(digits[i - start] == c);
            assert(!is_digit(digits[i - start]));
            return None;
        }
        let ghost prev = s@.subrange(start as int, i as int);
        let ghost next = s@.subrange(start as int, i + 1);
        assert(next.drop_last() =~= prev);
        let d: u64 = (c as u32 - '0' as u32) as u64;
        assert(digit_value(c) == d);
        value = value * 10 + d;
        assert(value == digits_value(next));
        if value > 4294967295u64 {
            proof {
                lemma_digits_prefix_le(digits, i + 1 - start);
                assert(digits.subrange(0, i + 1 - start) =~= next);
            }
            return None;
        }
        assert forall|m: int| 0 <= m < next.len() implies is_digit(#[trigger] next[m]) by {
            if m < prev.len() {
                assert(next[m] == prev[m]);
            }
        }
        i = i + 1;
    }
    assert(s@.subrange(start as int, n as int) =~= digits);
    Some(value as u32)
}

/// The character that writes the digit `d`.
fn digit_char(d: u32) -> (c: char)
    requires
        d < 10,
    ensures
        c == digit_of(d as nat),
{
    let b: u8 = 48u8 + d as u8;
    b as char
}

/// Appends the decimal writing of `n`.
pub fn push_decimal(out: &mut String, n: u32)
    ensures
        final(out)@ == old(out)@ + decimal(n as nat),
    decreases n,
{
    if n >= 10 {
        push_decimal(out, n / 10);
    }
    push_char(out, digit_char(n % 10));
    assert(final(out)@ =~= old(out)@ + decimal(n as nat)) by {
        if n >= 10 {
            assert(decimal(n as nat) == decimal((n / 10) as nat).push(digit_of((n % 10) as nat)));
        }
    };
}

/// Appends the decimal writing of `n` padded with zeros to two characters.
pub fn push_decimal_pad2(out: &mut String, n: u32)
    ensures
        final(out)@ == old(out)@ + decimal_pad2(n as nat),
{
    if n < 10 {
        push_char(out, '0');
    }
    push_decimal(out, n);
    assert(final(out)@ =~= old(out)@ + decimal_pad2(n as nat));
}

proof fn lemma_decimal_digits(n: nat)
    ensures
        decimal(n).len() > 0,
        all_digits(decimal(n)),
        digits_value(decimal(n)) == n,
        decimal(n)[0] != '+',
    decreases n,
{
    lemma_digit_roundtrip(n % 10);
    if n < 10 {
        let d = decimal(n);
        assert(d.drop_last() =~= Seq::<char>::empty());
        assert(digits_value(d.drop_last()) == 0);
        assert(d.last() == digit_of(n));
        assert(digits_value(d) == digits_value(d.drop_last()) * 10 + digit_value(d.last()));
    }
    if n >= 10 {
        lemma_decimal_digits(n / 10);
        let d = decimal(n);
        assert(d.drop_last() =~= decimal(n / 10));
        lemma_digit_roundtrip(n % 10);
        assert(digits_value(d) == digits_value(decimal(n / 10)) * 10 + digit_value(d.last()));
        assert((n / 10) * 10 + n % 10 == n);
        assert forall|i: int| 0 <= i < d.len() implies is_digit(#[trigger] d[i]) by {
            if i < d.len() - 1 {
                assert(d[i] == decimal(n / 10)[i]);
            }
        }
    }
}

proof fn lemma_digit_roundtrip(d: nat)
    requires
        d < 10,
    ensures
        is_digit(digit_of(d)),
        digit_value(digit_of(d)) == d,
        digit_of(d) != '+',
{
    assert(digit_of(d) as u32 == d + 48);
}

/// The decimal writing of a positive number does not begin with `0`, and
/// from 10 on it has at least two digits.
pub proof fn lemma_decimal_shape(n: nat)
    ensures
        n >= 1 ==> decimal(n)[0] != '0',
        n >= 10 ==> decimal(n).len() >= 2,
        decimal(n).len() >= 1,
    decreases n,
{
    lemma_digit_roundtrip(n % 10);
    if n >= 10 {
        lemma_decimal_shape(n / 10);
        assert(decimal(n)[0] == decimal(n / 10)[0]);
    } else {
        assert(digit_of(n) as u32 == n + 48);
    }
}

/// A number written in decimal reads back as the same number.
pub proof fn lemma_decimal_parses_back(n: u32)
    ensures
        parse_u32_spec(decimal(n as nat)) == Some(n),
{
    lemma_decimal_digits(n as nat);
}

/// A padded decimal writing is made of digits only, so it has no whitespace
/// at its ends.
pub proof fn lemma_decimal_pad2_digits(n: u32)
    ensures
        all_digits(decimal_pad2(n as nat)),
        is_trimmed(decimal_pad2(n as nat)),
{
    lemma_decimal_digits(n as nat);
    lemma_digit_roundtrip((n % 10) as nat);
    let p = decimal_pad2(n as nat);
    if n < 10 {
        assert(decimal(n as nat) == seq![digit_of(n as nat)]);
        assert forall|i: int| 0 <= i < p.len() implies is_digit(#[trigger] p[i]) by {}
    }
    assert(is_digit(p[0]));
    assert(is_digit(p[p.len() - 1]));
}

/// A number written in two or more decimal places reads back as the same number.
pub proof fn lemma_decimal_pad2_parses_back(n: u32)
    ensures
        parse_u32_spec(decimal_pad2(n as nat)) == Some(n),
{
    lemma_decimal_digits(n as nat);
    if n < 10 {
        let p = decimal_pad2(n as nat);
        assert(p.drop_last() =~= seq!['0']);
        assert(seq!['0'].drop_last() =~= Seq::<char>::empty());
        assert(seq!['0'].last() == '0');
        assert(digit_value('0') == 0);
        assert(digits_value(Seq::<char>::empty()) == 0);
        assert(digits_value(seq!['0']) == digits_value(seq!['0'].drop_last()) * 10 + digit_value('0'));
        assert(digits_value(seq!['0']) == 0);
        assert(all_digits(p)) by {
            assert forall|i: int| 0 <= i < p.len() implies is_digit(#[trigger] p[i]) by {
                if i == 1 {
                    assert(decimal(n as nat) == seq![digit_of(n as nat)]);
                }
            }
        }
    }
}

} // verus!
