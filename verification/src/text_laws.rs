//! What holds of numbers, letters and exchanged text, read back from the characters.

use vstd::prelude::*;

use crate::text::{decimal, lower, replaced, zero_padded, zero_padded_int};

verus! {

/// Every character is a decimal figure.
pub open spec fn all_figures(text: Seq<char>) -> bool {
    forall|i: int| 0 <= i < text.len() ==> '0' <= #[trigger] text[i] <= '9'
}

/// The number that decimal figures make, the first one being the highest.
pub open spec fn number_in(text: Seq<char>) -> int
    decreases text.len(),
{
    if text.len() == 0 {
        0
    } else {
        10 * number_in(text.drop_last()) + (text.last() as int - '0' as int)
    }
}

/// A number is written with the figures that make it, at least one of them, and does not start
/// with a zero unless it is zero.
pub proof fn lemma_number_written(n: nat)
    ensures
        all_figures(decimal(n)),
        number_in(decimal(n)) == n,
        decimal(n).len() > 0,
        decimal(n)[0] == '0' ==> n == 0 && decimal(n).len() == 1,
    decreases n,
{
    let text = decimal(n);
    if n < 10 {
        assert(text.drop_last() =~= Seq::<char>::empty());
        assert(number_in(text.drop_last()) == 0);
    } else {
        let shorter = decimal(n / 10);
        lemma_number_written(n / 10);
        assert(text.drop_last() =~= shorter);
        assert(text[0] == shorter[0]);
        assert forall|i: int| 0 <= i < text.len() implies '0' <= #[trigger] text[i] <= '9' by {
            if i < shorter.len() {
                assert(text[i] == shorter[i]);
            }
        }
    }
}

/// Zeros before figures do not change the number that they make.
proof fn lemma_leading_zeros(count: nat, figures: Seq<char>)
    requires
        all_figures(figures),
    ensures
        all_figures(crate::text::zeros(count) + figures),
        number_in(crate::text::zeros(count) + figures) == number_in(figures),
    decreases figures.len(), count,
{
    let zeros = crate::text::zeros(count);
    let text = zeros + figures;
    assert forall|i: int| 0 <= i < text.len() implies '0' <= #[trigger] text[i] <= '9' by {
        if i >= zeros.len() {
            assert(text[i] == figures[i - zeros.len()]);
        }
    }
    if figures.len() > 0 {
        assert(text.drop_last() =~= zeros + figures.drop_last());
        assert forall|i: int| 0 <= i < figures.drop_last().len() implies '0' <= #[trigger] figures.drop_last()[i]
            <= '9' by {
            assert(figures.drop_last()[i] == figures[i]);
        }
        lemma_leading_zeros(count, figures.drop_last());
    } else if count > 0 {
        assert(text.drop_last() =~= crate::text::zeros((count - 1) as nat) + figures);
        lemma_leading_zeros((count - 1) as nat, figures);
    } else {
        assert(text =~= figures);
    }
}

/// How many figures a number has.
proof fn lemma_figure_count(n: nat)
    ensures
        n < 100 ==> decimal(n).len() <= 2,
        n < 10000 ==> decimal(n).len() <= 4,
        n >= 10000 ==> decimal(n).len() > 4,
{
    reveal_with_fuel(decimal, 6);
}

/// A number with leading zeros is written with figures that make it, as many as are asked for or
/// as many as it has, whichever is more. In particular a number below a hundred takes two figures
/// where two are asked for, and one below ten thousand takes four where four are asked for.
pub proof fn lemma_padded_number(n: nat, width: nat)
    ensures
        all_figures(zero_padded(n, width)),
        number_in(zero_padded(n, width)) == n,
        zero_padded(n, width).len() >= width,
        zero_padded(n, width).len() > width ==> zero_padded(n, width)[0] != '0' || n == 0,
        n < 100 && width == 2 ==> zero_padded(n, width).len() == 2,
        n < 10000 && width == 4 ==> zero_padded(n, width).len() == 4,
        n >= 10000 && width == 4 ==> zero_padded(n, width).len() > 4,
{
    lemma_number_written(n);
    lemma_figure_count(n);
    let digits = decimal(n);
    if digits.len() < width {
        lemma_leading_zeros((width - digits.len()) as nat, digits);
    }
}

/// An integer is written with its sign, if it is negative, and the figures of its magnitude. The
/// sign counts as one of the characters that are asked for.
pub proof fn lemma_padded_integer(n: int, width: nat)
    ensures
        zero_padded_int(n, width).len() >= width,
        n >= 0 ==> all_figures(zero_padded_int(n, width)) && number_in(zero_padded_int(n, width))
            == n,
        n < 0 ==> {
            let text = zero_padded_int(n, width);
            &&& text.len() > 1
            &&& text[0] == '-'
            &&& all_figures(text.skip(1))
            &&& number_in(text.skip(1)) == -n
        },
        0 <= n < 10000 && width == 4 ==> zero_padded_int(n, width).len() == 4,
        n >= 10000 && width == 4 ==> zero_padded_int(n, width).len() > 4,
{
    if n >= 0 {
        lemma_padded_number(n as nat, width);
    } else {
        let narrower = (if width > 0 {
            width - 1
        } else {
            0
        }) as nat;
        let figures = zero_padded((-n) as nat, narrower);
        lemma_padded_number((-n) as nat, narrower);
        lemma_number_written((-n) as nat);
        assert(zero_padded_int(n, width).skip(1) =~= figures);
    }
}

/// Two numbers below a hundred are two figures each, and differ where the numbers differ.
pub proof fn lemma_padded_numbers_differ(left: nat, right: nat, width: nat)
    requires
        left != right,
    ensures
        zero_padded(left, width) != zero_padded(right, width),
{
    lemma_padded_number(left, width);
    lemma_padded_number(right, width);
}

/// Making a text small exchanges each ASCII capital for the letter that stands thirty-two places
/// behind it, and keeps every other character in its place.
pub proof fn lemma_small_letters(text: Seq<char>)
    ensures
        lower(text).len() == text.len(),
        forall|i: int|
            0 <= i < text.len() ==> if 'A' <= #[trigger] text[i] <= 'Z' {
                lower(text)[i] as int == text[i] as int + 32
            } else {
                lower(text)[i] == text[i]
            },
        forall|i: int| 0 <= i < text.len() ==> !('A' <= #[trigger] lower(text)[i] <= 'Z'),
{
}

/// A text that a pattern does not occur in stays as it is when the pattern is exchanged.
pub proof fn lemma_nothing_to_replace(text: Seq<char>, pattern: Seq<char>, with: Seq<char>)
    requires
        pattern.len() > 0,
        forall|i: int| 0 <= i <= text.len() ==> !pattern.is_prefix_of(#[trigger] text.skip(i)),
    ensures
        replaced(text, pattern, with) == text,
    decreases text.len(),
{
    if text.len() >= pattern.len() {
        assert(text.skip(0) =~= text);
        let rest = text.skip(1);
        assert forall|i: int| 0 <= i <= rest.len() implies !pattern.is_prefix_of(
            #[trigger] rest.skip(i),
        ) by {
            assert(rest.skip(i) =~= text.skip(i + 1));
        }
        lemma_nothing_to_replace(rest, pattern, with);
        assert(seq![text[0]] + rest =~= text);
    }
}

/// The first occurrence of a pattern is exchanged: what stands before it is kept, and the same is
/// done with what stands behind it.
pub proof fn lemma_first_is_replaced(
    before: Seq<char>,
    pattern: Seq<char>,
    after: Seq<char>,
    with: Seq<char>,
)
    requires
        pattern.len() > 0,
        forall|i: int|
            0 <= i < before.len() ==> !pattern.is_prefix_of(
                #[trigger] (before + pattern + after).skip(i),
            ),
    ensures
        replaced(before + pattern + after, pattern, with) == before + with + replaced(
            after,
            pattern,
            with,
        ),
    decreases before.len(),
{
    let text = before + pattern + after;
    assert(text.skip(0) =~= text);
    if before.len() == 0 {
        assert(pattern =~= text.subrange(0, pattern.len() as int));
        assert(text.skip(pattern.len() as int) =~= after);
        assert(before + with =~= with);
    } else {
        assert(!pattern.is_prefix_of(text.skip(0)));
        let rest = before.skip(1);
        assert(text.skip(1) =~= rest + pattern + after);
        assert forall|i: int| 0 <= i < rest.len() implies !pattern.is_prefix_of(
            #[trigger] (rest + pattern + after).skip(i),
        ) by {
            assert((rest + pattern + after).skip(i) =~= text.skip(i + 1));
        }
        lemma_first_is_replaced(rest, pattern, after, with);
        assert(seq![text[0]] + (rest + with + replaced(after, pattern, with)) =~= before + with
            + replaced(after, pattern, with));
    }
}

} // verus!
