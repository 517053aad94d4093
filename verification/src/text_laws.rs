//! Laws of texts: cutting, joining, trimming and numbers.

use crate::text::{
    all_digits, cut_first, cut_last, digits_value, first_index, is_digit, is_space, joined,
    last_index, lemma_first_index, lemma_last_index, lowered, number_up_to, pieces,
    signed_number, text_lt, trimmed, trimmed_end, trimmed_start, zero_padded, CharSet,
};
use vstd::prelude::*;

verus! {

/// Trimming takes from both ends of a text as many characters of the set as there are, and
/// nothing else: what is left is a stretch of the text, before and behind it stand only
/// characters of the set, and it neither begins nor ends with one.
pub proof fn trimming_takes_the_ends(s: Seq<char>, set: CharSet)
    ensures
        exists|a: int, b: int|
            0 <= a <= b <= s.len() && trimmed(s, set) == #[trigger] s.subrange(a, b) && (forall|
                i: int,
            |
                0 <= i < a ==> set.has(#[trigger] s[i])) && (forall|i: int|
                b <= i < s.len() ==> set.has(#[trigger] s[i])) && (a < b ==> !set.has(s[a])
                && !set.has(s[b - 1])),
{
    let a = lemma_start(s, set);
    let t = s.skip(a);
    let k = lemma_end(t, set);
    let b = a + k;
    assert(trimmed(s, set) =~= s.subrange(a, b));
    assert forall|i: int| b <= i < s.len() implies set.has(#[trigger] s[i]) by {
        assert(t[i - a] == s[i]);
    }
    if a < b {
        assert(t[0] == s[a]);
        assert(t[k - 1] == s[b - 1]);
    }
}

proof fn lemma_start(s: Seq<char>, set: CharSet) -> (a: int)
    ensures
        0 <= a <= s.len(),
        trimmed_start(s, set) == s.skip(a),
        forall|i: int| 0 <= i < a ==> set.has(#[trigger] s[i]),
        a < s.len() ==> !set.has(s[a]),
    decreases s.len(),
{
    if s.len() > 0 && set.has(s[0]) {
        let t = s.skip(1);
        let k = lemma_start(t, set);
        assert(t.skip(k) =~= s.skip(k + 1));
        assert forall|i: int| 0 <= i < k + 1 implies set.has(#[trigger] s[i]) by {
            if i > 0 {
                assert(t[i - 1] == s[i]);
            }
        }
        if k < t.len() {
            assert(t[k] == s[k + 1]);
        }
        k + 1
    } else {
        assert(s.skip(0) =~= s);
        0
    }
}

proof fn lemma_end(s: Seq<char>, set: CharSet) -> (b: int)
    ensures
        0 <= b <= s.len(),
        trimmed_end(s, set) == s.take(b),
        forall|i: int| b <= i < s.len() ==> set.has(#[trigger] s[i]),
        b > 0 ==> !set.has(s[b - 1]),
    decreases s.len(),
{
    if s.len() > 0 && set.has(s.last()) {
        let t = s.drop_last();
        let k = lemma_end(t, set);
        assert(t.take(k) =~= s.take(k));
        assert forall|i: int| k <= i < s.len() implies set.has(#[trigger] s[i]) by {
            if i < t.len() {
                assert(t[i] == s[i]);
            }
        }
        if k > 0 {
            assert(t[k - 1] == s[k - 1]);
        }
        k
    } else {
        assert(s.take(s.len() as int) =~= s);
        s.len() as int
    }
}

/// Of the characters of ASCII, white space is the space and the controls from tab to carriage
/// return.
pub proof fn these_are_the_spaces_of_ascii(c: char)
    requires
        (c as int) < 128,
    ensures
        is_space(c) <==> c as int == 32 || 9 <= c as int <= 13,
{
}

/// A text is cut at the first or at the last of a character: what stands before it, the
/// character and what stands behind it make up the text. Without that character there is no
/// cut.
pub proof fn a_cut_text_is_whole(s: Seq<char>, c: char)
    ensures
        cut_first(s, c) is Some <==> s.contains(c),
        cut_last(s, c) is Some <==> s.contains(c),
        cut_first(s, c) matches Some((a, b)) ==> s == a + seq![c] + b && !a.contains(c),
        cut_last(s, c) matches Some((a, b)) ==> s == a + seq![c] + b && !b.contains(c),
{
    lemma_first_index(s, c);
    lemma_last_index(s, c);
    let i = first_index(s, c);
    let k = last_index(s, c);
    if s.contains(c) {
        let j = choose|j: int| 0 <= j < s.len() && s[j] == c;
        assert(i <= j);
        assert(k >= j);
    }
    if i < s.len() {
        assert(s[i] == c);
        assert(s.contains(c));
        assert(s =~= s.take(i) + seq![c] + s.skip(i + 1));
        let h = s.take(i);
        if h.contains(c) {
            let j = choose|j: int| 0 <= j < h.len() && h[j] == c;
            assert(s[j] == c);
        }
    }
    if k >= 0 {
        assert(s[k] == c);
        assert(s.contains(c));
        assert(s =~= s.take(k) + seq![c] + s.skip(k + 1));
        let t = s.skip(k + 1);
        if t.contains(c) {
            let j = choose|j: int| 0 <= j < t.len() && t[j] == c;
            assert(s[k + 1 + j] == c);
        }
    }
}

/// The pieces of a text, joined by the character at which it was cut, are the text, and no
/// piece holds that character.
pub proof fn pieces_make_up_the_text(s: Seq<char>, c: char)
    ensures
        pieces(s, c).len() > 0,
        joined(pieces(s, c), seq![c]) == s,
        forall|i: int| 0 <= i < pieces(s, c).len() ==> !(#[trigger] pieces(s, c)[i]).contains(c),
    decreases s.len(),
{
    let i = first_index(s, c);
    lemma_first_index(s, c);
    let all = pieces(s, c);
    if i < s.len() {
        let head = s.take(i);
        let tail = s.skip(i + 1);
        let rest = pieces(tail, c);
        pieces_make_up_the_text(tail, c);
        assert(all == seq![head] + rest);
        lemma_joined_front(head, rest, seq![c]);
        assert(s =~= head + seq![c] + tail);
        assert forall|k: int| 0 <= k < all.len() implies !(#[trigger] all[k]).contains(c) by {
            if k == 0 {
                if head.contains(c) {
                    let j = choose|j: int| 0 <= j < head.len() && head[j] == c;
                    assert(s[j] == c);
                }
            } else {
                assert(all[k] == rest[k - 1]);
            }
        }
    } else {
        assert(all =~= seq![s]);
        assert forall|k: int| 0 <= k < all.len() implies !(#[trigger] all[k]).contains(c) by {
            if s.contains(c) {
                let j = choose|j: int| 0 <= j < s.len() && s[j] == c;
            }
        }
    }
}

proof fn lemma_joined_front(first: Seq<char>, rest: Seq<Seq<char>>, sep: Seq<char>)
    requires
        rest.len() > 0,
    ensures
        joined(seq![first] + rest, sep) == first + sep + joined(rest, sep),
    decreases rest.len(),
{
    let all = seq![first] + rest;
    assert(all.last() == rest.last());
    assert(all.drop_last() =~= seq![first] + rest.drop_last());
    if rest.len() > 1 {
        lemma_joined_front(first, rest.drop_last(), sep);
        assert(joined(all, sep) =~= first + sep + joined(rest, sep));
    } else {
        assert(all.drop_last() =~= seq![first]);
        assert(joined(all.drop_last(), sep) == first);
        assert(joined(rest, sep) == rest[0]);
    }
}

/// Lower case changes the letters from A to Z to those from a to z and nothing else, and
/// keeps the length.
pub proof fn lower_case_changes_letters_only(s: Seq<char>, i: int)
    requires
        0 <= i < s.len(),
    ensures
        lowered(s).len() == s.len(),
        65 <= s[i] as int <= 90 ==> lowered(s)[i] as int == s[i] as int + 32,
        !(65 <= s[i] as int <= 90) ==> lowered(s)[i] == s[i],
{
    if 'A' <= s[i] <= 'Z' {
        assert((s[i] as int + 32) as char as int == s[i] as int + 32);
    }
}

/// A number is read only from digits, with at most one sign before them: a text with any other
/// character is none. The value of digits is ten times that of all but the last, and the
/// last.
pub proof fn only_digits_are_numbers(s: Seq<char>, max: nat, c: char)
    ensures
        number_up_to(s, max) is Some ==> s.len() > 0 && number_up_to(s, max)->0 <= max && (forall|
            i: int,
        |
            1 <= i < s.len() ==> '0' <= #[trigger] s[i] <= '9') && ('0' <= s[0] <= '9' || (s[0]
            == '+' && s.len() > 1)),
        all_digits(s) && '0' <= c <= '9' ==> number_up_to(s.push(c), max) == (if 10 * digits_value(
            s,
        ) + (c as int - 48) <= max {
            Some((10 * digits_value(s) + (c as int - 48)) as nat)
        } else {
            None
        }),
        '0' <= c <= '9' && c as int - 48 <= max ==> number_up_to(seq![c], max) == Some(
            (c as int - 48) as nat,
        ),
{
    let d = crate::text::unsigned_digits(s);
    if number_up_to(s, max) is Some {
        assert(is_digit(d[0]));
        assert forall|i: int| 1 <= i < s.len() implies '0' <= #[trigger] s[i] <= '9' by {
            if s[0] == '+' {
                assert(d[i - 1] == s[i]);
                assert(is_digit(d[i - 1]));
            } else {
                assert(is_digit(d[i]));
            }
        }
    }
    if all_digits(s) && '0' <= c <= '9' {
        let t = s.push(c);
        assert(is_digit(s[0]));
        assert(t[0] == s[0]);
        assert(t.drop_last() =~= s);
        assert forall|i: int| 0 <= i < t.len() implies is_digit(#[trigger] t[i]) by {
            if i < s.len() {
                assert(t[i] == s[i]);
            }
        }
    }
    if '0' <= c <= '9' {
        let t = seq![c];
        assert(t.drop_last() =~= seq![]);
        assert(digits_value(t.drop_last()) == 0);
        assert(all_digits(t));
    }
}

/// A minus sign makes a number negative, and nothing else does.
pub proof fn a_minus_sign_makes_a_number_negative(d: Seq<char>)
    requires
        all_digits(d),
    ensures
        digits_value(d) <= i64::MAX ==> signed_number(d) == Some(digits_value(d) as int),
        digits_value(d) <= i64::MAX ==> signed_number(seq!['-'] + d) == Some(
            -(digits_value(d) as int),
        ),
        digits_value(d) > i64::MAX ==> signed_number(d) is None,
{
    assert(is_digit(d[0]));
    let s = seq!['-'] + d;
    assert(s.skip(1) =~= d);
}

/// Texts sort by their first character that differs, and a text before all that it begins.
pub proof fn texts_sort_by_the_first_difference(
    p: Seq<char>,
    a: char,
    b: char,
    x: Seq<char>,
    y: Seq<char>,
)
    requires
        a < b,
    ensures
        text_lt(p + seq![a] + x, p + seq![b] + y),
        !text_lt(p + seq![b] + y, p + seq![a] + x),
        text_lt(p, p + seq![a] + x),
        !text_lt(p, p),
    decreases p.len(),
{
    let u = p + seq![a] + x;
    let v = p + seq![b] + y;
    if p.len() > 0 {
        let q = p.drop_first();
        texts_sort_by_the_first_difference(q, a, b, x, y);
        assert(u.drop_first() =~= q + seq![a] + x);
        assert(v.drop_first() =~= q + seq![b] + y);
        assert(u[0] == p[0] && v[0] == p[0]);
    } else {
        assert(u[0] == a && v[0] == b);
    }
}

/// Padding puts zeros before a text until it has the width, and leaves a text that has it.
pub proof fn padding_puts_zeros_before(s: Seq<char>, width: nat)
    ensures
        s.len() >= width ==> zero_padded(s, width) == s,
        s.len() < width ==> zero_padded(s, width).len() == width,
        s.len() < width ==> zero_padded(s, width).skip((width - s.len()) as int) == s,
        forall|i: int| 0 <= i < width - s.len() ==> #[trigger] zero_padded(s, width)[i] == '0',
    decreases width,
{
    if s.len() < width {
        let t = zero_padded(s, (width - 1) as nat);
        padding_puts_zeros_before(s, (width - 1) as nat);
        let z = zero_padded(s, width);
        assert(z == seq!['0'] + t);
        assert forall|i: int| 0 <= i < width - s.len() implies #[trigger] z[i] == '0' by {
            if i > 0 {
                assert(z[i] == t[i - 1]);
            }
        }
        assert(z.skip((width - s.len()) as int) =~= s) by {
            if s.len() < width - 1 {
                assert(z.skip((width - s.len()) as int) =~= t.skip((width - 1 - s.len()) as int));
            } else {
                assert(z.skip(1) =~= t);
            }
        }
    }
}

} // verus!
