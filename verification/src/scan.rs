//! Characters, fields and numbers: the lexical layer under the font loader.

use vstd::prelude::*;
use vstd::slice::slice_subrange;
use vstd::std_specs::iter::IteratorSpec;

verus! {

/// The characters of a string, in order.
pub fn chars_of(text: &str) -> (chars: Vec<char>)
    ensures
        chars@ == text@,
{
    let mut chars: Vec<char> = Vec::new();
    let source = text.chars();
    for c in it: source
        invariant
            it.seq() == text@,
            chars@ == it.seq().take(it.index() as int),
    {
        chars.push(c);
    }
    chars
}

/// The value of `c` as a digit: 0 to 9 for `'0'` to `'9'`, 10 to 15 for `'a'` to `'f'` in
/// either case, and 16 for every other character.
pub open spec fn digit_value(c: char) -> int {
    if '0' <= c <= '9' {
        c as int - '0' as int
    } else if 'a' <= c <= 'f' {
        c as int - 'a' as int + 10
    } else if 'A' <= c <= 'F' {
        c as int - 'A' as int + 10
    } else {
        16
    }
}

/// Whether `c` is a digit in the given radix (at most 16).
pub open spec fn is_digit(c: char, radix: int) -> bool {
    digit_value(c) < radix
}

/// Whether `c` is one of `0-9`, `a-f`, `A-F`.
pub open spec fn is_hex_digit(c: char) -> bool {
    is_digit(c, 16)
}

/// Whether every character of `s` is a digit in the given radix.
pub open spec fn all_digits(s: Seq<char>, radix: int) -> bool {
    forall|i: int| 0 <= i < s.len() ==> is_digit(#[trigger] s[i], radix)
}

/// The number that the digits of `s` write in the given radix, most significant first.
pub open spec fn digits_value(s: Seq<char>, radix: int) -> int
    decreases s.len(),
{
    if s.len() == 0 {
        0
    } else {
        digits_value(s.drop_last(), radix) * radix + digit_value(s.last())
    }
}

/// A magnitude is a non-empty run of digits.
pub open spec fn magnitude(s: Seq<char>, radix: int) -> Option<int> {
    if s.len() > 0 && all_digits(s, radix) {
        Some(digits_value(s, radix))
    } else {
        None
    }
}

/// A magnitude with an optional `+` in front.
pub open spec fn unsigned_number(s: Seq<char>, radix: int) -> Option<int> {
    if s.len() > 0 && s[0] == '+' {
        magnitude(s.skip(1), radix)
    } else {
        magnitude(s, radix)
    }
}

/// A magnitude with an optional `+` or `-` in front.
pub open spec fn signed_number(s: Seq<char>, radix: int) -> Option<int> {
    if s.len() > 0 && s[0] == '-' {
        match magnitude(s.skip(1), radix) {
            Some(m) => Some(-m),
            None => None,
        }
    } else {
        unsigned_number(s, radix)
    }
}

/// The signed decimal integer that `s` writes, where it fits in `isize`.
pub open spec fn isize_of(s: Seq<char>) -> Option<isize> {
    match signed_number(s, 10) {
        Some(v) => if isize::MIN <= v <= isize::MAX {
            Some(v as isize)
        } else {
            None
        },
        None => None,
    }
}

/// The unsigned decimal integer that `s` writes, where it fits in `usize`.
pub open spec fn usize_of(s: Seq<char>) -> Option<usize> {
    match unsigned_number(s, 10) {
        Some(v) => if v <= usize::MAX {
            Some(v as usize)
        } else {
            None
        },
        None => None,
    }
}

/// The byte that `s` writes in hexadecimal, where it fits in one.
pub open spec fn hex_byte_of(s: Seq<char>) -> Option<u8> {
    match unsigned_number(s, 16) {
        Some(v) => if v <= u8::MAX {
            Some(v as u8)
        } else {
            None
        },
        None => None,
    }
}

/// The value of a run of digits is never negative and never shrinks as digits are added.
pub proof fn lemma_digits_value_grows(s: Seq<char>, radix: int, n: int)
    requires
        2 <= radix <= 16,
        0 <= n <= s.len(),
    ensures
        0 <= digits_value(s.take(n), radix) <= digits_value(s, radix),
    decreases s.len(),
{
    if n == s.len() {
        assert(s.take(n) =~= s);
        if s.len() > 0 {
            lemma_digits_value_grows(s.drop_last(), radix, 0);
            assert(digits_value(s.drop_last(), radix) * radix >= 0) by (nonlinear_arith)
                requires
                    digits_value(s.drop_last(), radix) >= 0,
                    radix >= 2,
            ;
        }
    } else {
        lemma_digits_value_grows(s.drop_last(), radix, n);
        assert(s.drop_last().take(n) =~= s.take(n));
        let v = digits_value(s.drop_last(), radix);
        assert(v * radix >= v) by (nonlinear_arith)
            requires
                v >= 0,
                radix >= 2,
        ;
    }
}

/// The digit that `c` stands for, 16 where it is none.
pub fn digit_of(c: char) -> (d: u32)
    ensures
        d == digit_value(c),
        d <= 16,
{
    if '0' <= c && c <= '9' {
        c as u32 - '0' as u32
    } else if 'a' <= c && c <= 'f' {
        c as u32 - 'a' as u32 + 10
    } else if 'A' <= c && c <= 'F' {
        c as u32 - 'A' as u32 + 10
    } else {
        16
    }
}

/// The value of a possibly empty run of digits, where it is at most `limit`.
pub open spec fn digits_within(s: Seq<char>, radix: int, limit: int) -> Option<int> {
    if all_digits(s, radix) && digits_value(s, radix) <= limit {
        Some(digits_value(s, radix))
    } else {
        None
    }
}

/// Reads a possibly empty run of digits as a number no larger than `limit`.
pub fn read_digits(s: &[char], radix: u32, limit: u64) -> (value: Option<u64>)
    requires
        2 <= radix <= 16,
    ensures
        match value {
            Some(v) => digits_within(s@, radix as int, limit as int) == Some(v as int),
            None => digits_within(s@, radix as int, limit as int) is None,
        },
{
    let mut total: u64 = 0;
    let mut i: usize = 0;
    assert(s@.take(0) =~= Seq::<char>::empty());
    while i < s.len()
        invariant
            2 <= radix <= 16,
            0 <= i <= s.len(),
            all_digits(s@.take(i as int), radix as int),
            total == digits_value(s@.take(i as int), radix as int),
            total <= limit,
        decreases s.len() - i,
    {
        let d = digit_of(s[i]);
        proof {
            assert(s@.take(i + 1).drop_last() =~= s@.take(i as int));
            assert(s@.take(i + 1).last() == s@[i as int]);
        }
        if d >= radix {
            assert(!is_digit(s@[i as int], radix as int));
            return None;
        }
        assert(total * radix <= 0xffff_ffff_ffff_ffff * 16) by (nonlinear_arith)
            requires
                0 <= total <= 0xffff_ffff_ffff_ffff,
                0 <= radix <= 16,
        ;
        let wide: u128 = total as u128 * radix as u128 + d as u128;
        if wide > limit as u128 {
            proof {
                lemma_digits_value_grows(s@, radix as int, i + 1);
            }
            return None;
        }
        total = wide as u64;
        i = i + 1;
        proof {
            assert forall|j: int| 0 <= j < i implies is_digit(
                #[trigger] s@.take(i as int)[j],
                radix as int,
            ) by {
                if j < i - 1 {
                    assert(s@.take(i - 1)[j] == s@[j]);
                }
            }
        }
    }
    assert(s@.take(i as int) =~= s@);
    Some(total)
}

/// Reads a non-empty run of digits as a number no larger than `limit`.
pub fn read_magnitude(s: &[char], radix: u32, limit: u64) -> (value: Option<u64>)
    requires
        2 <= radix <= 16,
    ensures
        match value {
            Some(v) => magnitude(s@, radix as int) == Some(v as int) && v <= limit,
            None => match magnitude(s@, radix as int) {
                Some(v) => v > limit,
                None => true,
            },
        },
{
    if s.len() == 0 {
        None
    } else {
        read_digits(s, radix, limit)
    }
}

/// Reads an optional `+` and then digits, as a number no larger than `limit`.
pub fn read_unsigned(s: &[char], radix: u32, limit: u64) -> (value: Option<u64>)
    requires
        2 <= radix <= 16,
    ensures
        match value {
            Some(v) => unsigned_number(s@, radix as int) == Some(v as int) && v <= limit,
            None => match unsigned_number(s@, radix as int) {
                Some(v) => v > limit,
                None => true,
            },
        },
{
    if s.len() > 0 && s[0] == '+' {
        read_magnitude(slice_subrange(s, 1, s.len()), radix, limit)
    } else {
        read_magnitude(s, radix, limit)
    }
}

/// Reads a signed decimal integer.
pub fn read_isize(s: &[char]) -> (value: Option<isize>)
    ensures
        value == isize_of(s@),
{
    if s.len() > 0 && s[0] == '-' {
        match read_magnitude(slice_subrange(s, 1, s.len()), 10, isize::MAX as u64 + 1) {
            Some(m) => Some((-(m as i128)) as isize),
            None => None,
        }
    } else {
        match read_unsigned(s, 10, isize::MAX as u64) {
            Some(m) => Some(m as isize),
            None => None,
        }
    }
}

/// Reads an unsigned decimal integer.
pub fn read_usize(s: &[char]) -> (value: Option<usize>)
    ensures
        value == usize_of(s@),
{
    match read_unsigned(s, 10, usize::MAX as u64) {
        Some(m) => Some(m as usize),
        None => None,
    }
}

/// Reads one byte written in hexadecimal.
pub fn read_hex_byte(s: &[char]) -> (value: Option<u8>)
    ensures
        value == hex_byte_of(s@),
{
    match read_unsigned(s, 16, 255) {
        Some(m) => Some(m as u8),
        None => None,
    }
}

/// The position of the first `c` in `s`, or the length of `s` where it holds none.
pub open spec fn first_index(s: Seq<char>, c: char) -> int
    decreases s.len(),
{
    if s.len() == 0 || s[0] == c {
        0
    } else {
        1 + first_index(s.skip(1), c)
    }
}

/// `first_index` is the one position that no `c` comes before and that holds a `c` or ends `s`.
pub proof fn lemma_first_index(s: Seq<char>, c: char, n: int)
    requires
        0 <= n <= s.len(),
        forall|j: int| 0 <= j < n ==> s[j] != c,
        n < s.len() ==> s[n] == c,
    ensures
        first_index(s, c) == n,
    decreases n,
{
    if n > 0 {
        lemma_first_index(s.skip(1), c, n - 1);
    }
}

/// The pieces of `s` between the occurrences of `sep`, empty ones included: always at least one.
pub open spec fn split(s: Seq<char>, sep: char) -> Seq<Seq<char>>
    decreases s.len(),
{
    let n = first_index(s, sep);
    if 0 <= n < s.len() {
        seq![s.take(n)] + split(s.skip(n + 1), sep)
    } else {
        seq![s]
    }
}

/// What follows the first `sep` of `s`, where there is one.
pub open spec fn after_first(s: Seq<char>, sep: char) -> Option<Seq<char>> {
    let n = first_index(s, sep);
    if 0 <= n < s.len() {
        Some(s.skip(n + 1))
    } else {
        None
    }
}

/// The pieces that a list of index pairs cuts out of `s`.
pub open spec fn pieces(s: Seq<char>, ranges: Seq<(usize, usize)>) -> Seq<Seq<char>> {
    Seq::new(ranges.len(), |i: int| s.subrange(ranges[i].0 as int, ranges[i].1 as int))
}

/// Whether each pair of `ranges` is a range of indices into a sequence of length `len`.
pub open spec fn ranges_within(ranges: Seq<(usize, usize)>, len: nat) -> bool {
    forall|i: int| 0 <= i < ranges.len() ==> (#[trigger] ranges[i]).0 <= ranges[i].1 <= len
}

/// Cuts `s` at each `sep`, and returns where each piece starts and ends.
pub fn split_ranges(s: &[char], sep: char) -> (ranges: Vec<(usize, usize)>)
    ensures
        ranges_within(ranges@, s@.len()),
        pieces(s@, ranges@) == split(s@, sep),
        ranges@.len() >= 1,
        ranges@[0].0 == 0,
        ranges@[0].1 == first_index(s@, sep),
{
    let mut ranges: Vec<(usize, usize)> = Vec::new();
    let mut from: usize = 0;
    let mut i: usize = 0;
    proof {
        assert(s@.skip(0) =~= s@);
        assert(pieces(s@, ranges@) + split(s@, sep) =~= split(s@, sep));
    }
    while i < s.len()
        invariant
            0 <= from <= i <= s.len(),
            ranges_within(ranges@, s@.len()),
            split(s@, sep) == pieces(s@, ranges@) + split(s@.skip(from as int), sep),
            forall|j: int| from <= j < i ==> s@[j] != sep,
            ranges@.len() == 0 ==> from == 0,
            ranges@.len() > 0 ==> ranges@[0].0 == 0 && ranges@[0].1 == first_index(s@, sep),
        decreases s.len() - i,
    {
        if s[i] == sep {
            proof {
                let rest = s@.skip(from as int);
                lemma_first_index(rest, sep, i - from);
                assert(rest.take(i - from) =~= s@.subrange(from as int, i as int));
                assert(rest.skip(i - from + 1) =~= s@.skip(i + 1));
                assert(pieces(s@, ranges@.push((from, i))) =~= pieces(s@, ranges@) + seq![
                    s@.subrange(from as int, i as int),
                ]);
                if ranges@.len() == 0 {
                    assert(rest =~= s@);
                }
            }
            ranges.push((from, i));
            from = i + 1;
        }
        i = i + 1;
    }
    proof {
        let rest = s@.skip(from as int);
        lemma_first_index(rest, sep, s@.len() - from);
        assert(rest =~= s@.subrange(from as int, s@.len() as int));
        assert(pieces(s@, ranges@.push((from, i))) =~= pieces(s@, ranges@) + seq![rest]);
        if ranges@.len() == 0 {
            assert(rest =~= s@);
        }
    }
    ranges.push((from, i));
    ranges
}

/// `s` without the carriage return at its end, if it has one.
pub open spec fn strip_cr(s: Seq<char>) -> Seq<char> {
    if s.len() > 0 && s.last() == '\r' {
        s.drop_last()
    } else {
        s
    }
}

/// The lines of a text. A line ends with a line feed, or with a carriage return and a line
/// feed; the last line may go without. Neither belongs to the line.
pub open spec fn lines_of(text: Seq<char>) -> Seq<Seq<char>> {
    let cut = split(text, '\n');
    let count = if cut.last().len() == 0 {
        cut.len() - 1
    } else {
        cut.len() as int
    };
    Seq::new(
        count as nat,
        |i: int|
            if i < cut.len() - 1 {
                strip_cr(cut[i])
            } else {
                cut[i]
            },
    )
}

/// Where each line of `text` starts and ends.
pub fn line_ranges(text: &[char]) -> (ranges: Vec<(usize, usize)>)
    ensures
        ranges_within(ranges@, text@.len()),
        pieces(text@, ranges@) == lines_of(text@),
{
    let cut = split_ranges(text, '\n');
    let mut ranges: Vec<(usize, usize)> = Vec::new();
    let mut i: usize = 0;
    while i < cut.len()
        invariant
            0 <= i <= cut.len(),
            cut@.len() >= 1,
            ranges_within(cut@, text@.len()),
            pieces(text@, cut@) == split(text@, '\n'),
            ranges_within(ranges@, text@.len()),
            i < cut.len() ==> ranges@.len() == i,
            i == cut.len() ==> ranges@.len() == lines_of(text@).len(),
            forall|j: int|
                0 <= j < ranges@.len() ==> #[trigger] pieces(text@, ranges@)[j] == lines_of(
                    text@,
                )[j],
        decreases cut.len() - i,
    {
        let (from, to) = cut[i];
        proof {
            assert(pieces(text@, cut@)[i as int] == text@.subrange(from as int, to as int));
            assert(pieces(text@, cut@).last() == pieces(text@, cut@)[cut@.len() - 1]);
        }
        let ghost before = ranges@;
        if i + 1 < cut.len() {
            if from < to && text[to - 1] == '\r' {
                ranges.push((from, to - 1));
                assert(text@.subrange(from as int, to as int).drop_last() =~= text@.subrange(
                    from as int,
                    to - 1,
                ));
            } else {
                ranges.push((from, to));
            }
        } else if from < to {
            ranges.push((from, to));
        }
        proof {
            assert forall|j: int| 0 <= j < ranges@.len() implies #[trigger] pieces(
                text@,
                ranges@,
            )[j] == lines_of(text@)[j] by {
                if j < before.len() {
                    assert(pieces(text@, before)[j] == lines_of(text@)[j]);
                }
            }
        }
        i = i + 1;
    }
    assert(pieces(text@, ranges@) =~= lines_of(text@));
    ranges
}

/// The character that writes the digit `d`, for `d` below 10.
pub open spec fn digit_char(d: int) -> char {
    if d == 0 {
        '0'
    } else if d == 1 {
        '1'
    } else if d == 2 {
        '2'
    } else if d == 3 {
        '3'
    } else if d == 4 {
        '4'
    } else if d == 5 {
        '5'
    } else if d == 6 {
        '6'
    } else if d == 7 {
        '7'
    } else if d == 8 {
        '8'
    } else {
        '9'
    }
}

/// The decimal digits of `n`, most significant first, without leading zeros.
pub open spec fn decimal_digits(n: nat) -> Seq<char>
    decreases n,
{
    if n < 10 {
        seq![digit_char(n as int)]
    } else {
        decimal_digits(n / 10).push(digit_char((n % 10) as int))
    }
}

/// `String::push`: the string afterwards is the string before with `c` added at its end.
#[verifier::external_body]
pub(crate) fn push_char(text: &mut String, c: char)
    ensures
        final(text)@ == old(text)@.push(c),
{
    text.push(c)
}

/// Adds the decimal digits of `n` at the end of `out`.
pub fn push_decimal(out: &mut String, n: usize)
    ensures
        final(out)@ == old(out)@ + decimal_digits(n as nat),
    decreases n,
{
    if n >= 10 {
        push_decimal(out, n / 10);
    }
    let d = n % 10;
    let c = if d == 0 {
        '0'
    } else if d == 1 {
        '1'
    } else if d == 2 {
        '2'
    } else if d == 3 {
        '3'
    } else if d == 4 {
        '4'
    } else if d == 5 {
        '5'
    } else if d == 6 {
        '6'
    } else if d == 7 {
        '7'
    } else if d == 8 {
        '8'
    } else {
        '9'
    };
    push_char(out, c);
}

/// Whether the characters `s` spell `word`.
pub fn is_word(s: &[char], word: &str) -> (same: bool)
    ensures
        same == (s@ == word@),
{
    let mut i: usize = 0;
    let letters = word.chars();
    for c in it: letters
        invariant
            it.seq() == word@,
            i == it.index(),
            i <= s.len(),
            s@.take(i as int) == word@.take(i as int),
    {
        if i >= s.len() || s[i] != c {
            assert(s@ != word@);
            return false;
        }
        i = i + 1;
        assert(s@.take(i as int) =~= s@.take(i - 1).push(s@[i - 1]));
        assert(word@.take(i as int) =~= word@.take(i - 1).push(word@[i - 1]));
    }
    assert(word@.take(i as int) =~= word@);
    if i == s.len() {
        assert(s@.take(i as int) =~= s@);
        true
    } else {
        false
    }
}

} // verus!
