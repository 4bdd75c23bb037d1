//! Operations on text, stated over the characters that a string holds.

use vstd::prelude::*;
use vstd::string::*;

verus! {

/// `String::push`: appends one character to the end of the string.
pub assume_specification[ String::push ](s: &mut String, ch: char)
    ensures
        final(s)@ == old(s)@.push(ch),
;

/// The text with every occurrence of `pattern` exchanged for `with`. Occurrences are taken from
/// the left and do not overlap, and what was put in is not searched again.
pub open spec fn replaced(text: Seq<char>, pattern: Seq<char>, with: Seq<char>) -> Seq<char>
    decreases text.len(),
{
    if pattern.len() == 0 || text.len() < pattern.len() {
        text
    } else if pattern.is_prefix_of(text) {
        with + replaced(text.skip(pattern.len() as int), pattern, with)
    } else {
        seq![text[0]] + replaced(text.skip(1), pattern, with)
    }
}

/// The ASCII lower case of a character; every other character is its own.
pub open spec fn lower_char(c: char) -> char {
    if 'A' <= c <= 'Z' {
        ((c as u8 + 32) as u8) as char
    } else {
        c
    }
}

/// The text with its ASCII capitals made small.
pub open spec fn lower(text: Seq<char>) -> Seq<char> {
    text.map_values(|c: char| lower_char(c))
}

/// The decimal digit for a number below ten.
pub open spec fn digit_char(digit: nat) -> char {
    ((48 + digit) as u8) as char
}

/// A number in decimal, without leading zeros.
pub open spec fn decimal(n: nat) -> Seq<char>
    decreases n,
{
    if n < 10 {
        seq![digit_char(n)]
    } else {
        decimal(n / 10).push(digit_char(n % 10))
    }
}

/// `count` zeros.
pub open spec fn zeros(count: nat) -> Seq<char> {
    Seq::new(count, |i: int| '0')
}

/// A number in decimal, filled up with zeros on the left to at least `width` digits.
pub open spec fn zero_padded(n: nat, width: nat) -> Seq<char> {
    let digits = decimal(n);
    if digits.len() < width {
        zeros((width - digits.len()) as nat) + digits
    } else {
        digits
    }
}

/// An integer in decimal, filled up with zeros to at least `width` characters. The sign of a
/// negative number stands before the zeros and counts as one of the characters.
pub open spec fn zero_padded_int(n: int, width: nat) -> Seq<char> {
    if n >= 0 {
        zero_padded(n as nat, width)
    } else {
        seq!['-'] + zero_padded((-n) as nat, (if width > 0 { width - 1 } else { 0 }) as nat)
    }
}

/// The characters of a string.
pub fn chars_of(text: &str) -> (chars: Vec<char>)
    ensures
        chars@ == text@,
{
    let mut chars: Vec<char> = Vec::new();
    for c in it: text.chars()
        invariant
            it.seq() == text@,
            chars@ == text@.take(it.index()),
    {
        chars.push(c);
        assert(chars@ =~= text@.take(it.index() + 1));
    }
    assert(text@.take(text@.len() as int) =~= text@);
    chars
}

/// Appends the characters `from..to` to a string.
pub fn append_chars(out: &mut String, chars: &Vec<char>, from: usize, to: usize)
    requires
        from <= to <= chars.len(),
    ensures
        final(out)@ == old(out)@ + chars@.subrange(from as int, to as int),
{
    let mut i: usize = from;
    assert(out@ =~= old(out)@ + chars@.subrange(from as int, from as int));
    while i < to
        invariant
            from <= i <= to <= chars.len(),
            out@ == old(out)@ + chars@.subrange(from as int, i as int),
        decreases to - i,
    {
        out.push(chars[i]);
        assert(chars@.subrange(from as int, i + 1) =~= chars@.subrange(from as int, i as int).push(chars@[i as int]));
        assert(out@ =~= old(out)@ + chars@.subrange(from as int, i + 1));
        i += 1;
    }
}

/// Whether `pattern` stands in `chars` at the position `at`.
pub fn stands_at(chars: &Vec<char>, at: usize, pattern: &Vec<char>) -> (found: bool)
    requires
        at <= chars.len(),
    ensures
        found == pattern@.is_prefix_of(chars@.skip(at as int)),
{
    if pattern.len() > chars.len() - at {
        return false;
    }
    let mut i: usize = 0;
    while i < pattern.len()
        invariant
            i <= pattern.len(),
            at + pattern.len() <= chars.len(),
            forall|k: int| 0 <= k < i ==> pattern@[k] == chars@[at + k],
        decreases pattern.len() - i,
    {
        if pattern[i] != chars[at + i] {
            assert(chars@.skip(at as int)[i as int] == chars@[at + i]);
            return false;
        }
        i += 1;
    }
    assert(pattern@ =~= chars@.skip(at as int).subrange(0, pattern@.len() as int));
    true
}

/// Whether two strings hold the same characters.
pub fn same_text(left: &str, right: &str) -> (same: bool)
    ensures
        same == (left@ == right@),
{
    let left_chars = chars_of(left);
    let right_chars = chars_of(right);
    if left_chars.len() != right_chars.len() {
        return false;
    }
    let found = stands_at(&left_chars, 0, &right_chars);
    assert(left@.skip(0) =~= left@);
    assert(left@.subrange(0, left@.len() as int) =~= left@);
    found
}

/// The first position at or after `from` that holds `wanted`, or the length.
pub fn find_from(chars: &Vec<char>, from: usize, wanted: char) -> (at: usize)
    requires
        from <= chars.len(),
    ensures
        from <= at <= chars.len(),
        forall|k: int| from <= k < at ==> chars@[k] != wanted,
        at < chars.len() ==> chars@[at as int] == wanted,
{
    let mut i: usize = from;
    while i < chars.len() && chars[i] != wanted
        invariant
            from <= i <= chars.len(),
            forall|k: int| from <= k < i ==> chars@[k] != wanted,
        decreases chars.len() - i,
    {
        i += 1;
    }
    i
}

/// Exchanges every occurrence of `pattern` for `with`.
pub fn replace(text: &str, pattern: &str, with: &str) -> (out: String)
    requires
        pattern@.len() > 0,
    ensures
        out@ == replaced(text@, pattern@, with@),
{
    let chars = chars_of(text);
    let wanted = chars_of(pattern);
    let mut out = String::new();
    let mut i: usize = 0;
    assert(text@.skip(0) =~= text@);
    while i < chars.len()
        invariant
            chars@ == text@,
            wanted@ == pattern@,
            wanted@.len() > 0,
            i <= chars.len(),
            out@ + replaced(text@.skip(i as int), pattern@, with@) == replaced(text@, pattern@, with@),
        decreases chars.len() - i,
    {
        let ghost before = out@;
        if stands_at(&chars, i, &wanted) {
            assert(text@.skip(i as int).skip(pattern@.len() as int) =~= text@.skip(i + pattern@.len()));
            out.append(with);
            i += wanted.len();
            assert(out@ + replaced(text@.skip(i as int), pattern@, with@) =~= before + (with@
                + replaced(text@.skip(i as int), pattern@, with@)));
        } else {
            proof {
                let rest = text@.skip(i as int);
                assert(rest.skip(1) =~= text@.skip(i + 1));
                assert(replaced(rest, pattern@, with@) =~= seq![rest[0]] + replaced(
                    rest.skip(1),
                    pattern@,
                    with@,
                )) by {
                    if rest.len() < pattern@.len() {
                        assert(replaced(rest.skip(1), pattern@, with@) == rest.skip(1));
                        assert(rest =~= seq![rest[0]] + rest.skip(1));
                    }
                }
            }
            out.push(chars[i]);
            i += 1;
            assert(out@ + replaced(text@.skip(i as int), pattern@, with@) =~= before + (seq![
                text@[i - 1],
            ] + replaced(text@.skip(i as int), pattern@, with@)));
        }
    }
    assert(text@.skip(i as int) =~= Seq::<char>::empty());
    assert(out@ + Seq::<char>::empty() =~= out@);
    out
}

/// Makes the ASCII capitals of a string small.
pub fn to_lower(text: &str) -> (out: String)
    ensures
        out@ == lower(text@),
{
    let chars = chars_of(text);
    let mut out = String::new();
    let mut i: usize = 0;
    while i < chars.len()
        invariant
            chars@ == text@,
            i <= chars.len(),
            out@ == lower(text@).take(i as int),
        decreases chars.len() - i,
    {
        let c = chars[i];
        if 'A' <= c && c <= 'Z' {
            out.push((c as u8 + 32) as char);
        } else {
            out.push(c);
        }
        assert(out@ =~= lower(text@).take(i + 1));
        i += 1;
    }
    assert(lower(text@).take(i as int) =~= lower(text@));
    out
}

/// A number in decimal.
pub fn to_decimal(n: u32) -> (out: String)
    ensures
        out@ == decimal(n as nat),
    decreases n,
{
    let mut out = if n < 10 {
        String::new()
    } else {
        to_decimal(n / 10)
    };
    let digit: u8 = (n % 10) as u8;
    out.push((48 + digit) as char);
    assert(out@ =~= decimal(n as nat));
    out
}

/// A number in decimal with leading zeros.
pub fn to_zero_padded(n: u32, width: usize) -> (out: String)
    ensures
        out@ == zero_padded(n as nat, width as nat),
{
    let digits = to_decimal(n);
    let count = digits.as_str().unicode_len();
    let mut out = String::new();
    let mut filled: usize = count;
    assert(out@ =~= zeros(0));
    while filled < width
        invariant
            count <= filled,
            filled <= width || filled == count,
            out@ == zeros((filled - count) as nat),
        decreases width - filled,
    {
        out.push('0');
        filled += 1;
        assert(out@ =~= zeros((filled - count) as nat));
    }
    out.append(digits.as_str());
    assert(out@ =~= zero_padded(n as nat, width as nat));
    out
}

/// An integer in decimal with leading zeros.
pub fn to_zero_padded_int(n: i32, width: usize) -> (out: String)
    ensures
        out@ == zero_padded_int(n as int, width as nat),
{
    if n >= 0 {
        to_zero_padded(n as u32, width)
    } else {
        let magnitude: u32 = (-(n as i64)) as u32;
        let digits = to_zero_padded(
            magnitude,
            if width > 0 {
                width - 1
            } else {
                0
            },
        );
        let mut out = String::new();
        out.push('-');
        out.append(digits.as_str());
        assert(out@ =~= seq!['-'] + digits@);
        out
    }
}

} // verus!
