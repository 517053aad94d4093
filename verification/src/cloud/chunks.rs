//! How a large file is cut into the numbered parts of a chunked upload.

use crate::text::{
    all_digits, decimal, digits_value, is_digit, lemma_decimal_value, padded_text, zero_padded,
};
use vstd::arithmetic::div_mod::lemma_fundamental_div_mod;
use vstd::prelude::*;

verus! {

/// The smallest size of a part: 5 MiB.
pub const CHUNK_SIZE: u64 = 5242880;

/// The largest number of parts.
pub const MAX_CHUNKS: u32 = 10000;

/// True if the largest number of parts of this size holds the file.
pub open spec fn fits(total: int, size: int) -> bool {
    total <= size * MAX_CHUNKS
}

/// The first of `size`, twice `size`, and so on, with which the file fits.
pub open spec fn first_fit(total: int, size: int) -> int
    decreases total - size,
{
    if size <= 0 || fits(total, size) {
        size
    } else {
        first_fit(total, 2 * size)
    }
}

/// The size of the parts of a file.
pub open spec fn chunk_size(total: u64) -> int {
    first_fit(total as int, CHUNK_SIZE as int)
}

/// The number of parts of a file; an empty file has one, empty part.
pub open spec fn chunk_count(total: u64) -> int {
    if total == 0 {
        1
    } else {
        (total - 1) / chunk_size(total) + 1
    }
}

/// Where a part begins. Parts are counted from one.
pub open spec fn chunk_offset(total: u64, part: int) -> int {
    (part - 1) * chunk_size(total)
}

/// The length of a part.
pub open spec fn chunk_len(total: u64, part: int) -> int {
    let rest = total - chunk_offset(total, part);
    if rest < chunk_size(total) {
        rest
    } else {
        chunk_size(total)
    }
}

/// The name of a part: its number, padded to five digits.
pub open spec fn chunk_name_of(part: nat) -> Seq<char> {
    zero_padded(decimal(part), 5)
}

// ---- laws -------------------------------------------------------------------

proof fn lemma_first_fit(total: int, size: int)
    requires
        size > 0,
    ensures
        first_fit(total, size) >= size,
        fits(total, first_fit(total, size)),
        first_fit(total, size) > size ==> first_fit(total, size) < total,
    decreases total - size,
{
    if !fits(total, size) {
        lemma_first_fit(total, 2 * size);
    }
}

/// The size of the parts is at least the smallest size, and the smallest doubling
/// of it with which the file fits in the largest number of parts.
pub proof fn chunk_size_is_minimal(total: u64)
    ensures
        chunk_size(total) >= CHUNK_SIZE,
        fits(total as int, chunk_size(total)),
        chunk_size(total) == CHUNK_SIZE || (chunk_size(total) % 2 == 0 && !fits(
            total as int,
            chunk_size(total) / 2,
        )),
{
    lemma_first_fit(total as int, CHUNK_SIZE as int);
    lemma_half_does_not_fit(total as int, CHUNK_SIZE as int);
}

proof fn lemma_half_does_not_fit(total: int, size: int)
    requires
        size > 0,
    ensures
        first_fit(total, size) == size || (first_fit(total, size) % 2 == 0 && !fits(
            total,
            first_fit(total, size) / 2,
        )),
    decreases total - size,
{
    if !fits(total, size) {
        lemma_half_does_not_fit(total, 2 * size);
    }
}

/// A file that ten thousand parts of 5 MiB hold has parts of 5 MiB; a larger one has
/// larger parts.
pub proof fn small_files_have_small_parts(total: u64)
    ensures
        chunk_size(total) == 5242880 <==> total <= 52428800000,
        chunk_size(total) >= 5242880,
        total <= chunk_size(total) * 10000,
        total > 0 ==> chunk_size(total) * (chunk_count(total) - 1) < total <= chunk_size(total)
            * chunk_count(total),
        total == 0 ==> chunk_count(total) == 1,
{
    chunk_size_is_minimal(total);
    let size = chunk_size(total);
    let n = chunk_count(total);
    if total > 0 {
        lemma_fundamental_div_mod(total - 1, size);
        let r = (total - 1) % size;
        assert(0 <= r < size) by (nonlinear_arith)
            requires
                size > 0,
                r == (total - 1) % size,
        ;
        assert(size * n == size * (n - 1) + size) by (nonlinear_arith);
    }
}

/// The parts of a file cover it: there are at least one and at most the largest
/// number of them, the first begins at zero, each begins where the one before it
/// ends, and the last ends where the file ends. No part is longer than the size
/// of the parts, and only the one part of an empty file is empty.
pub proof fn chunks_cover_the_file(total: u64)
    ensures
        1 <= chunk_count(total) <= MAX_CHUNKS,
        chunk_offset(total, 1) == 0,
        forall|part: int|
            1 <= part < chunk_count(total) ==> (#[trigger] chunk_offset(total, part)) + chunk_len(
                total,
                part,
            ) == chunk_offset(total, part + 1),
        chunk_offset(total, chunk_count(total)) + chunk_len(total, chunk_count(total)) == total,
        forall|part: int|
            1 <= part <= chunk_count(total) ==> 0 <= (#[trigger] chunk_offset(total, part)) <= total
                && 0 <= chunk_len(total, part) <= chunk_size(total) && (total > 0 ==> chunk_len(
                total,
                part,
            ) > 0),
{
    let size = chunk_size(total);
    let n = chunk_count(total);
    chunk_size_is_minimal(total);
    if total > 0 {
        let q = (total - 1) / size;
        lemma_fundamental_div_mod(total - 1, size);
        let r = (total - 1) % size;
        assert(total - 1 == size * q + r);
        assert(0 <= r < size) by (nonlinear_arith)
            requires
                size > 0,
                r == (total - 1) % size,
        ;
        assert(0 <= q) by (nonlinear_arith)
            requires
                size > 0,
                total > 0,
                q == (total - 1) / size,
        ;
        assert(q < MAX_CHUNKS) by (nonlinear_arith)
            requires
                total <= size * MAX_CHUNKS,
                total - 1 == size * q + r,
                0 <= r,
                size > 0,
        ;
        assert((n - 1) * size == size * q) by (nonlinear_arith)
            requires
                n == q + 1,
        ;
    }
    assert forall|part: int| 1 <= part < n implies (#[trigger] chunk_offset(total, part))
        + chunk_len(total, part) == chunk_offset(total, part + 1) by {
        assert(part * size == (part - 1) * size + size) by (nonlinear_arith);
        assert(part * size <= (n - 1) * size) by (nonlinear_arith)
            requires
                part <= n - 1,
                size > 0,
        ;
    }
    assert forall|part: int| 1 <= part <= n implies 0 <= (#[trigger] chunk_offset(total, part))
        <= total && 0 <= chunk_len(total, part) <= size && (total > 0 ==> chunk_len(total, part)
        > 0) by {
        assert(0 <= (part - 1) * size <= (n - 1) * size) by (nonlinear_arith)
            requires
                1 <= part <= n,
                size > 0,
        ;
    }
}

/// Where the first difference of two texts is one of order, the first text sorts
/// before the second.
pub open spec fn sorts_before(a: Seq<char>, b: Seq<char>) -> bool {
    exists|i: int|
        0 <= i < a.len() && i < b.len() && a.take(i) == b.take(i) && #[trigger] a[i] < #[trigger] b[i]
}

proof fn lemma_padded_value(s: Seq<char>, width: nat)
    requires
        all_digits(s),
    ensures
        all_digits(zero_padded(s, width)),
        digits_value(zero_padded(s, width)) == digits_value(s),
        s.len() <= width ==> zero_padded(s, width).len() == width,
    decreases width,
{
    if s.len() < width && width > 0 {
        lemma_padded_value(s, (width - 1) as nat);
        lemma_leading_zero(zero_padded(s, (width - 1) as nat));
    }
}

proof fn lemma_leading_zero(s: Seq<char>)
    ensures
        digits_value(seq!['0'] + s) == digits_value(s),
    decreases s.len(),
{
    let z = seq!['0'] + s;
    if s.len() == 0 {
        assert(z.drop_last().len() == 0);
        assert(digits_value(z.drop_last()) == 0);
        assert(z.last() == '0');
    } else {
        assert(z.drop_last() =~= seq!['0'] + s.drop_last());
        lemma_leading_zero(s.drop_last());
        assert(z.last() == s.last());
    }
}

proof fn lemma_digits_bound(s: Seq<char>, n: nat)
    requires
        all_digits(s),
        digits_value(s) == n,
        s.len() > 1 ==> s[0] != '0',
        n <= 99999,
    ensures
        s.len() <= 5,
{
    if s.len() > 5 {
        lemma_value_at_least(s, 5);
    }
}

proof fn lemma_value_at_least(s: Seq<char>, k: nat)
    requires
        all_digits(s),
        s[0] != '0',
        s.len() > k,
    ensures
        k == 0 ==> digits_value(s) >= 1,
        k == 1 ==> digits_value(s) >= 10,
        k == 2 ==> digits_value(s) >= 100,
        k == 3 ==> digits_value(s) >= 1000,
        k == 4 ==> digits_value(s) >= 10000,
        k == 5 ==> digits_value(s) >= 100000,
    decreases s.len(),
{
    assert(is_digit(s[0]));
    assert(is_digit(s.last()));
    if s.len() == 1 {
        assert(s.drop_last().len() == 0);
        assert(digits_value(s.drop_last()) == 0);
        assert(s.last() == s[0]);
    } else {
        let h = s.drop_last();
        assert(h[0] == s[0]);
        assert forall|i: int| 0 <= i < h.len() implies is_digit(#[trigger] h[i]) by {
            assert(h[i] == s[i]);
        }
        lemma_value_at_least(h, if k == 0 { 0 } else { (k - 1) as nat });
    }
}

proof fn lemma_decimal_starts(n: nat)
    ensures
        decimal(n).len() > 1 ==> decimal(n)[0] != '0',
        n >= 1 ==> decimal(n)[0] != '0',
    decreases n,
{
    lemma_decimal_value(n);
    if n >= 10 {
        lemma_decimal_starts(n / 10);
        lemma_decimal_value(n / 10);
        assert(decimal(n)[0] == decimal(n / 10)[0]);
    }
}

proof fn lemma_smaller_sorts_before(a: Seq<char>, b: Seq<char>)
    requires
        a.len() == b.len(),
        forall|i: int| 0 <= i < a.len() ==> is_digit(#[trigger] a[i]),
        forall|i: int| 0 <= i < b.len() ==> is_digit(#[trigger] b[i]),
        digits_value(a) < digits_value(b),
    ensures
        sorts_before(a, b),
    decreases a.len(),
{
    if a.len() > 0 {
        let n = a.len() - 1;
        let ha = a.drop_last();
        let hb = b.drop_last();
        assert(is_digit(a[n]) && is_digit(b[n]));
        assert forall|i: int| 0 <= i < ha.len() implies is_digit(#[trigger] ha[i]) by {
            assert(ha[i] == a[i]);
        }
        assert forall|i: int| 0 <= i < hb.len() implies is_digit(#[trigger] hb[i]) by {
            assert(hb[i] == b[i]);
        }
        if digits_value(ha) < digits_value(hb) {
            lemma_smaller_sorts_before(ha, hb);
            let i = choose|i: int|
                0 <= i < ha.len() && i < hb.len() && ha.take(i) == hb.take(i)
                    && #[trigger] ha[i] < #[trigger] hb[i];
            assert(a.take(i) =~= ha.take(i));
            assert(b.take(i) =~= hb.take(i));
            assert(a[i] < b[i]);
        } else {
            lemma_same_value_same_digits(ha, hb);
            assert(a.take(n) =~= ha);
            assert(b.take(n) =~= hb);
            assert(a[n] < b[n]);
        }
    }
}

proof fn lemma_same_value_same_digits(a: Seq<char>, b: Seq<char>)
    requires
        a.len() == b.len(),
        forall|i: int| 0 <= i < a.len() ==> is_digit(#[trigger] a[i]),
        forall|i: int| 0 <= i < b.len() ==> is_digit(#[trigger] b[i]),
        digits_value(a) == digits_value(b),
    ensures
        a == b,
    decreases a.len(),
{
    if a.len() > 0 {
        let n = a.len() - 1;
        let ha = a.drop_last();
        let hb = b.drop_last();
        assert(is_digit(a[n]) && is_digit(b[n]));
        assert forall|i: int| 0 <= i < ha.len() implies is_digit(#[trigger] ha[i]) by {
            assert(ha[i] == a[i]);
        }
        assert forall|i: int| 0 <= i < hb.len() implies is_digit(#[trigger] hb[i]) by {
            assert(hb[i] == b[i]);
        }
        lemma_same_value_same_digits(ha, hb);
        assert(a =~= ha.push(a[n]));
        assert(b =~= hb.push(b[n]));
    } else {
        assert(a =~= b);
    }
}

/// Part names have five digits and sort as their numbers do, so that the server
/// puts the parts together in their order.
pub proof fn chunk_names_sort_by_number(a: nat, b: nat)
    requires
        a < b <= 99999,
    ensures
        chunk_name_of(a).len() == 5,
        chunk_name_of(b).len() == 5,
        sorts_before(chunk_name_of(a), chunk_name_of(b)),
{
    lemma_chunk_name(a);
    lemma_chunk_name(b);
    lemma_smaller_sorts_before(chunk_name_of(a), chunk_name_of(b));
}

proof fn lemma_chunk_name(n: nat)
    requires
        n <= 99999,
    ensures
        chunk_name_of(n).len() == 5,
        all_digits(chunk_name_of(n)),
        digits_value(chunk_name_of(n)) == n,
{
    lemma_decimal_value(n);
    lemma_decimal_starts(n);
    lemma_digits_bound(decimal(n), n);
    lemma_padded_value(decimal(n), 5);
}

/// The part that a listing names by a part's name is that part.
pub proof fn chunk_name_reads_back(part: nat)
    requires
        part <= 99999,
    ensures
        chunk_name_of(part).len() == 5,
        crate::text::number_up_to(chunk_name_of(part), u32::MAX as nat) == Some(part),
{
    lemma_chunk_name(part);
    assert(is_digit(chunk_name_of(part)[0]));
}

// ---- executable functions ---------------------------------------------------

/// The size of the parts of a file.
pub fn pick_chunk_size(total: u64) -> (r: u64)
    ensures
        r == chunk_size(total),
{
    let mut size: u64 = CHUNK_SIZE;
    while total > 0 && (total - 1) / 10000 >= size
        invariant
            0 < size,
            first_fit(total as int, size as int) == chunk_size(total),
        decreases total - size,
    {
        assert(!fits(total as int, size as int));
        size = size * 2;
    }
    assert(fits(total as int, size as int));
    size
}

/// The number of parts of a file.
pub fn count_chunks(total: u64) -> (r: u32)
    ensures
        r == chunk_count(total),
        1 <= r <= MAX_CHUNKS,
{
    proof {
        chunks_cover_the_file(total);
        chunk_size_is_minimal(total);
    }
    if total == 0 {
        1
    } else {
        let size: u64 = pick_chunk_size(total);
        let q: u64 = (total - 1) / size;
        (q + 1) as u32
    }
}

/// Where a part begins and how long it is.
pub fn chunk_range(total: u64, part: u32) -> (r: (u64, u64))
    requires
        1 <= part <= chunk_count(total),
    ensures
        r.0 == chunk_offset(total, part as int),
        r.1 == chunk_len(total, part as int),
{
    proof {
        chunks_cover_the_file(total);
        chunk_size_is_minimal(total);
        assert(chunk_offset(total, part as int) <= total);
    }
    let size: u64 = pick_chunk_size(total);
    let offset: u64 = (part as u64 - 1) * size;
    let rest: u64 = total - offset;
    if rest < size {
        (offset, rest)
    } else {
        (offset, size)
    }
}

/// The name of a part: its number, padded to five digits.
pub fn chunk_name(n: u32) -> (r: String)
    ensures
        r@ == chunk_name_of(n as nat),
{
    padded_text(n as u64, 5)
}

} // verus!
