//! Text operations on `&str` and `String`, stated over sequences of characters.

use vstd::prelude::*;

verus! {

// ---- characters -----------------------------------------------------------

/// A decimal digit.
pub open spec fn is_digit(c: char) -> bool {
    '0' <= c <= '9'
}

/// The digit that stands for `d`, for `d` below ten.
pub open spec fn digit_char(d: nat) -> char {
    (48 + d) as char
}

/// The characters with Unicode's White_Space property.
pub open spec fn is_space(c: char) -> bool {
    ||| '\u{9}' <= c <= '\u{d}'
    ||| c == '\u{20}'
    ||| c == '\u{85}'
    ||| c == '\u{a0}'
    ||| c == '\u{1680}'
    ||| '\u{2000}' <= c <= '\u{200a}'
    ||| c == '\u{2028}'
    ||| c == '\u{2029}'
    ||| c == '\u{202f}'
    ||| c == '\u{205f}'
    ||| c == '\u{3000}'
}

/// `c` in lower case if it is an ASCII letter, else `c`.
pub open spec fn lower_char(c: char) -> char {
    if 'A' <= c <= 'Z' {
        (c as int + 32) as char
    } else {
        c
    }
}

/// A set of characters that can be trimmed off a text.
#[derive(Clone, Copy)]
pub enum CharSet {
    /// White space.
    Space,
    /// One character.
    Only(char),
}

impl CharSet {
    /// Membership.
    pub open spec fn has(self, c: char) -> bool {
        match self {
            CharSet::Space => is_space(c),
            CharSet::Only(x) => c == x,
        }
    }

    /// True if `c` is in the set.
    pub fn contains(self, c: char) -> (r: bool)
        ensures
            r == self.has(c),
    {
        match self {
            CharSet::Space => is_space_char(c),
            CharSet::Only(x) => c == x,
        }
    }
}

/// True for a white space character.
pub fn is_space_char(c: char) -> (r: bool)
    ensures
        r == is_space(c),
{
    ('\u{9}' <= c && c <= '\u{d}') || c == '\u{20}' || c == '\u{85}' || c == '\u{a0}' || c
        == '\u{1680}' || ('\u{2000}' <= c && c <= '\u{200a}') || c == '\u{2028}' || c == '\u{2029}'
        || c == '\u{202f}' || c == '\u{205f}' || c == '\u{3000}'
}

/// True for a decimal digit.
pub fn is_digit_char(c: char) -> (r: bool)
    ensures
        r == is_digit(c),
{
    '0' <= c && c <= '9'
}

/// The digit for `d`.
fn digit(d: u64) -> (r: char)
    requires
        d < 10,
    ensures
        r == digit_char(d as nat),
        is_digit(r),
{
    (48 + d as u8) as char
}

// ---- views ----------------------------------------------------------------

/// The texts of a list of strings.
pub open spec fn views(v: Seq<String>) -> Seq<Seq<char>> {
    Seq::new(v.len(), |i: int| v[i]@)
}

/// The text of an optional string.
pub open spec fn opt_view(o: Option<String>) -> Option<Seq<char>> {
    match o {
        Some(s) => Some(s@),
        None => None,
    }
}

/// The text of an optional string slice.
pub open spec fn opt_str_view(o: Option<&str>) -> Option<Seq<char>> {
    match o {
        Some(s) => Some(s@),
        None => None,
    }
}

/// The text of an optional string, or `d` where there is none.
pub open spec fn or_text(o: Option<Seq<char>>, d: Seq<char>) -> Seq<char> {
    match o {
        Some(s) => s,
        None => d,
    }
}

// ---- searching, cutting and joining ----------------------------------------

/// The index of the first `c` in `s`, or the length of `s` if there is none.
pub open spec fn first_index(s: Seq<char>, c: char) -> int
    decreases s.len(),
{
    if s.len() == 0 || s[0] == c {
        0
    } else {
        1 + first_index(s.skip(1), c)
    }
}

/// The index of the last `c` in `s`, or -1 if there is none.
pub open spec fn last_index(s: Seq<char>, c: char) -> int
    decreases s.len(),
{
    if s.len() == 0 {
        -1
    } else if s.last() == c {
        s.len() - 1
    } else {
        last_index(s.drop_last(), c)
    }
}

/// What stands before and after the first `c`.
pub open spec fn cut_first(s: Seq<char>, c: char) -> Option<(Seq<char>, Seq<char>)> {
    let i = first_index(s, c);
    if i < s.len() {
        Some((s.take(i), s.skip(i + 1)))
    } else {
        None
    }
}

/// What stands before and after the last `c`.
pub open spec fn cut_last(s: Seq<char>, c: char) -> Option<(Seq<char>, Seq<char>)> {
    let i = last_index(s, c);
    if i >= 0 {
        Some((s.take(i), s.skip(i + 1)))
    } else {
        None
    }
}

/// The pieces of `s` between the occurrences of `c`.
pub open spec fn pieces(s: Seq<char>, c: char) -> Seq<Seq<char>>
    decreases s.len(),
    via pieces_decreases
{
    let i = first_index(s, c);
    if 0 <= i < s.len() {
        seq![s.take(i)] + pieces(s.skip(i + 1), c)
    } else {
        seq![s]
    }
}

#[via_fn]
proof fn pieces_decreases(s: Seq<char>, c: char) {
    lemma_first_index(s, c);
}

/// The texts of `parts` with `sep` between each two.
pub open spec fn joined(parts: Seq<Seq<char>>, sep: Seq<char>) -> Seq<char>
    decreases parts.len(),
{
    if parts.len() == 0 {
        seq![]
    } else if parts.len() == 1 {
        parts[0]
    } else {
        joined(parts.drop_last(), sep) + sep + parts.last()
    }
}

/// `s` without the leading characters that are in `set`.
pub open spec fn trimmed_start(s: Seq<char>, set: CharSet) -> Seq<char>
    decreases s.len(),
{
    if s.len() > 0 && set.has(s[0]) {
        trimmed_start(s.skip(1), set)
    } else {
        s
    }
}

/// `s` without the trailing characters that are in `set`.
pub open spec fn trimmed_end(s: Seq<char>, set: CharSet) -> Seq<char>
    decreases s.len(),
{
    if s.len() > 0 && set.has(s.last()) {
        trimmed_end(s.drop_last(), set)
    } else {
        s
    }
}

/// `s` without leading and trailing characters that are in `set`.
pub open spec fn trimmed(s: Seq<char>, set: CharSet) -> Seq<char> {
    trimmed_end(trimmed_start(s, set), set)
}

/// `s` with each occurrence of `pat`, taken from the left and without overlap,
/// put as `with`.
pub open spec fn replaced(s: Seq<char>, pat: Seq<char>, with: Seq<char>) -> Seq<char>
    decreases s.len(),
{
    if s.len() == 0 || pat.len() == 0 {
        s
    } else if pat.is_prefix_of(s) {
        with + replaced(s.skip(pat.len() as int), pat, with)
    } else {
        seq![s[0]] + replaced(s.skip(1), pat, with)
    }
}

/// `s` with its ASCII letters in lower case.
pub open spec fn lowered(s: Seq<char>) -> Seq<char> {
    Seq::new(s.len(), |i: int| lower_char(s[i]))
}

/// The index that `first_index` gives is the first one.
pub proof fn lemma_first_index(s: Seq<char>, c: char)
    ensures
        0 <= first_index(s, c) <= s.len(),
        forall|j: int| 0 <= j < first_index(s, c) ==> s[j] != c,
        first_index(s, c) < s.len() ==> s[first_index(s, c)] == c,
    decreases s.len(),
{
    if s.len() == 0 || s[0] == c {
    } else {
        let t = s.skip(1);
        lemma_first_index(t, c);
        assert forall|j: int| 0 <= j < first_index(s, c) implies s[j] != c by {
            if j > 0 {
                assert(t[j - 1] == s[j]);
            }
        }
        if first_index(s, c) < s.len() {
            assert(t[first_index(t, c)] == s[first_index(s, c)]);
        }
    }
}

pub(crate) proof fn lemma_first_index_is(s: Seq<char>, c: char, i: int)
    requires
        0 <= i <= s.len(),
        forall|j: int| 0 <= j < i ==> s[j] != c,
        i < s.len() ==> s[i] == c,
    ensures
        first_index(s, c) == i,
{
    lemma_first_index(s, c);
    let k = first_index(s, c);
    if k < i {
        assert(s[k] != c);
    }
}

/// The index that `last_index` gives is the last one.
pub proof fn lemma_last_index(s: Seq<char>, c: char)
    ensures
        -1 <= last_index(s, c) < s.len(),
        forall|j: int| last_index(s, c) < j < s.len() ==> s[j] != c,
        last_index(s, c) >= 0 ==> s[last_index(s, c)] == c,
    decreases s.len(),
{
    if s.len() == 0 || s.last() == c {
    } else {
        let t = s.drop_last();
        lemma_last_index(t, c);
        assert forall|j: int| last_index(s, c) < j < s.len() implies s[j] != c by {
            if j < s.len() - 1 {
                assert(t[j] == s[j]);
            }
        }
        if last_index(s, c) >= 0 {
            assert(t[last_index(t, c)] == s[last_index(s, c)]);
        }
    }
}

pub(crate) proof fn lemma_last_index_is(s: Seq<char>, c: char, i: int)
    requires
        -1 <= i < s.len(),
        forall|j: int| i < j < s.len() ==> s[j] != c,
        i >= 0 ==> s[i] == c,
    ensures
        last_index(s, c) == i,
{
    lemma_last_index(s, c);
    let k = last_index(s, c);
    if k > i {
        assert(s[k] != c);
    }
}

pub(crate) proof fn lemma_trimmed_start_is(s: Seq<char>, set: CharSet, i: int)
    requires
        0 <= i <= s.len(),
        forall|j: int| 0 <= j < i ==> set.has(#[trigger] s[j]),
        i < s.len() ==> !set.has(s[i]),
    ensures
        trimmed_start(s, set) == s.skip(i),
    decreases i,
{
    if i > 0 {
        let t = s.skip(1);
        assert(set.has(s[0]));
        assert forall|j: int| 0 <= j < i - 1 implies set.has(#[trigger] t[j]) by {
            assert(t[j] == s[j + 1]);
        }
        lemma_trimmed_start_is(t, set, i - 1);
        assert(t.skip(i - 1) =~= s.skip(i));
    } else {
        assert(s.skip(0) =~= s);
    }
}

pub(crate) proof fn lemma_trimmed_end_is(s: Seq<char>, set: CharSet, i: int)
    requires
        0 <= i <= s.len(),
        forall|j: int| i <= j < s.len() ==> set.has(#[trigger] s[j]),
        i > 0 ==> !set.has(s[i - 1]),
    ensures
        trimmed_end(s, set) == s.take(i),
    decreases s.len() - i,
{
    if i < s.len() {
        let t = s.drop_last();
        assert(set.has(s[s.len() - 1]));
        assert forall|j: int| i <= j < t.len() implies set.has(#[trigger] t[j]) by {
            assert(t[j] == s[j]);
        }
        lemma_trimmed_end_is(t, set, i);
        assert(t.take(i) =~= s.take(i));
    } else {
        assert(s.take(i) =~= s);
    }
}

// ---- numbers --------------------------------------------------------------

/// The decimal digits of `n`.
pub open spec fn decimal(n: nat) -> Seq<char>
    decreases n,
{
    if n < 10 {
        seq![digit_char(n)]
    } else {
        decimal(n / 10).push(digit_char(n % 10))
    }
}

/// `s` behind as many zeros as it takes to be `width` characters long.
pub open spec fn zero_padded(s: Seq<char>, width: nat) -> Seq<char>
    decreases width,
{
    if s.len() >= width || width == 0 {
        s
    } else {
        seq!['0'] + zero_padded(s, (width - 1) as nat)
    }
}

/// The decimal digits of `n`, behind a minus sign if `n` is negative.
pub open spec fn decimal_int(n: int) -> Seq<char> {
    if n < 0 {
        seq!['-'] + decimal((-n) as nat)
    } else {
        decimal(n as nat)
    }
}

/// True of one or more decimal digits.
pub open spec fn all_digits(s: Seq<char>) -> bool {
    s.len() > 0 && forall|i: int| 0 <= i < s.len() ==> is_digit(#[trigger] s[i])
}

/// The number that decimal digits write.
pub open spec fn digits_value(s: Seq<char>) -> nat
    decreases s.len(),
{
    if s.len() == 0 {
        0
    } else {
        digits_value(s.drop_last()) * 10 + (s.last() as int - 48) as nat
    }
}

/// `s` without one leading plus sign.
pub open spec fn unsigned_digits(s: Seq<char>) -> Seq<char> {
    if s.len() > 0 && s[0] == '+' {
        s.skip(1)
    } else {
        s
    }
}

/// The unsigned number that `s` writes, if it is at most `max`: decimal digits,
/// with one plus sign allowed before them.
pub open spec fn number_up_to(s: Seq<char>, max: nat) -> Option<nat> {
    let d = unsigned_digits(s);
    if all_digits(d) && digits_value(d) <= max {
        Some(digits_value(d))
    } else {
        None
    }
}

/// The signed 64-bit number that `s` writes, if it fits: decimal digits, with one
/// sign allowed before them.
pub open spec fn signed_number(s: Seq<char>) -> Option<int> {
    if s.len() > 0 && s[0] == '-' {
        let d = s.skip(1);
        if all_digits(d) && digits_value(d) <= -(i64::MIN as int) {
            Some(-(digits_value(d) as int))
        } else {
            None
        }
    } else {
        match number_up_to(s, i64::MAX as nat) {
            Some(n) => Some(n as int),
            None => None,
        }
    }
}

/// The digits of a number are digits, and their value is the number.
pub proof fn lemma_decimal_value(n: nat)
    ensures
        all_digits(decimal(n)),
        digits_value(decimal(n)) == n,
    decreases n,
{
    if n < 10 {
        let s = decimal(n);
        assert(s.drop_last().len() == 0);
        assert(digits_value(s.drop_last()) == 0);
        assert(s.last() as int == 48 + n);
    } else {
        lemma_decimal_value(n / 10);
        let s = decimal(n);
        assert(s.drop_last() =~= decimal(n / 10));
        assert(s.last() as int == 48 + n % 10);
        assert forall|i: int| 0 <= i < s.len() implies is_digit(#[trigger] s[i]) by {
            if i < s.len() - 1 {
                assert(s[i] == decimal(n / 10)[i]);
            }
        }
    }
}

/// Two numbers with the same digits are the same.
pub proof fn lemma_decimal_injective(a: nat, b: nat)
    requires
        decimal(a) == decimal(b),
    ensures
        a == b,
{
    lemma_decimal_value(a);
    lemma_decimal_value(b);
}

/// A number that was written reads back as the number.
pub proof fn written_numbers_read_back(n: nat, max: nat)
    requires
        n <= max,
    ensures
        number_up_to(decimal(n), max) == Some(n),
{
    lemma_decimal_value(n);
    assert(is_digit(decimal(n)[0]));
}

/// A signed number that was written reads back as the number.
pub proof fn written_integers_read_back(n: i64)
    ensures
        signed_number(decimal_int(n as int)) == Some(n as int),
{
    if n < 0 {
        let d = decimal((-n) as nat);
        lemma_decimal_value((-n) as nat);
        assert(decimal_int(n as int).skip(1) =~= d);
    } else {
        lemma_decimal_value(n as nat);
        assert(is_digit(decimal(n as nat)[0]));
        written_numbers_read_back(n as nat, i64::MAX as nat);
    }
}

/// A sequence with one more element has that element and those it had.
pub proof fn lemma_push_contains(s: Seq<Seq<char>>, x: Seq<char>, y: Seq<char>)
    ensures
        s.push(x).contains(y) <==> s.contains(y) || x == y,
{
    let t = s.push(x);
    if s.contains(y) {
        let i = choose|i: int| 0 <= i < s.len() && s[i] == y;
        assert(t[i] == y);
    }
    if x == y {
        assert(t[s.len() as int] == y);
    }
    if t.contains(y) && x != y {
        let i = choose|i: int| 0 <= i < t.len() && t[i] == y;
        assert(s[i] == y);
    }
}

// ---- executable functions ---------------------------------------------------

/// How `Debug` writes a text: quoted, with escapes.
pub uninterp spec fn debug_quoted(s: Seq<char>) -> Seq<char>;

/// `<str as Debug>::fmt` by way of `format!("{s:?}")`. What it writes is a
/// function of the text, named `debug_quoted`.
#[verifier::external_body]
pub(crate) fn debug_text(s: &str) -> (r: String)
    ensures
        r@ == debug_quoted(s@),
{
    format!("{s:?}")
}

/// `String::push` appends one character.
pub assume_specification[ String::push ](s: &mut String, c: char)
    ensures
        final(s)@ == old(s)@.push(c),
;

/// The characters of `s`.
pub fn to_chars(s: &str) -> (r: Vec<char>)
    ensures
        r@ == s@,
{
    let mut v: Vec<char> = Vec::new();
    for c in it: s.chars()
        invariant
            v@ == it.seq().take(it.index()),
            it.seq() == s@,
    {
        v.push(c);
    }
    v
}

/// The string of the characters `v[from..to]`.
pub fn from_chars(v: &[char], from: usize, to: usize) -> (r: String)
    requires
        from <= to <= v@.len(),
    ensures
        r@ == v@.subrange(from as int, to as int),
{
    let mut s: String = String::new();
    let mut i: usize = from;
    while i < to
        invariant
            from <= i <= to <= v@.len(),
            s@ == v@.subrange(from as int, i as int),
        decreases to - i,
    {
        s.push(v[i]);
        i += 1;
    }
    s
}

/// A copy of a list of texts.
pub fn clone_texts(v: &Vec<String>) -> (r: Vec<String>)
    ensures
        views(r@) == views(v@),
{
    let mut out: Vec<String> = Vec::new();
    let mut i: usize = 0;
    while i < v.len()
        invariant
            i <= v@.len(),
            out@.len() == i,
            forall|k: int| 0 <= k < i ==> (#[trigger] out@[k])@ == v@[k]@,
        decreases v.len() - i,
    {
        out.push(v[i].clone());
        i += 1;
    }
    assert(views(out@) =~= views(v@));
    out
}

/// True if the two texts are equal.
pub fn same_text(a: &str, b: &str) -> (r: bool)
    ensures
        r == (a@ == b@),
{
    let x = to_chars(a);
    let y = to_chars(b);
    if x.len() != y.len() {
        return false;
    }
    let mut i: usize = 0;
    while i < x.len()
        invariant
            i <= x@.len() == y@.len(),
            x@ == a@,
            y@ == b@,
            forall|j: int| 0 <= j < i ==> x@[j] == y@[j],
        decreases x.len() - i,
    {
        if x[i] != y[i] {
            assert(a@[i as int] != b@[i as int]);
            return false;
        }
        i += 1;
    }
    assert(a@ =~= b@);
    true
}

/// The index of the first `c` in `v`, or the length of `v`.
fn index_of(v: &[char], c: char) -> (r: usize)
    ensures
        r == first_index(v@, c),
        r <= v@.len(),
{
    let mut i: usize = 0;
    while i < v.len()
        invariant
            i <= v@.len(),
            forall|j: int| 0 <= j < i ==> v@[j] != c,
        decreases v.len() - i,
    {
        if v[i] == c {
            proof {
                lemma_first_index_is(v@, c, i as int);
            }
            return i;
        }
        i += 1;
    }
    proof {
        lemma_first_index_is(v@, c, i as int);
    }
    i
}

/// The index of the last `c` in `v`, if there is one.
fn last_index_of(v: &[char], c: char) -> (r: Option<usize>)
    ensures
        match r {
            Some(i) => i == last_index(v@, c) && i < v@.len(),
            None => last_index(v@, c) == -1,
        },
{
    let mut i: usize = v.len();
    while i > 0
        invariant
            i <= v@.len(),
            forall|j: int| i <= j < v@.len() ==> v@[j] != c,
        decreases i,
    {
        if v[i - 1] == c {
            proof {
                lemma_last_index_is(v@, c, i - 1);
            }
            return Some(i - 1);
        }
        i -= 1;
    }
    proof {
        lemma_last_index_is(v@, c, -1);
    }
    None
}

/// True if `c` occurs in `s`.
pub fn has_char(s: &str, c: char) -> (r: bool)
    ensures
        r == s@.contains(c),
{
    let v = to_chars(s);
    let i = index_of(&v, c);
    proof {
        lemma_first_index(s@, c);
        if i < v@.len() {
            assert(s@[i as int] == c);
        }
    }
    i < v.len()
}

/// What stands before and after the first `c` in `s`.
pub fn split_once(s: &str, c: char) -> (r: Option<(String, String)>)
    ensures
        match r {
            Some((a, b)) => cut_first(s@, c) == Some((a@, b@)),
            None => cut_first(s@, c) is None,
        },
{
    let v = to_chars(s);
    let i = index_of(&v, c);
    if i < v.len() {
        let a = from_chars(&v, 0, i);
        let b = from_chars(&v, i + 1, v.len());
        assert(a@ =~= s@.take(i as int));
        assert(b@ =~= s@.skip(i + 1));
        Some((a, b))
    } else {
        None
    }
}

/// What stands before and after the last `c` in `s`.
pub fn rsplit_once(s: &str, c: char) -> (r: Option<(String, String)>)
    ensures
        match r {
            Some((a, b)) => cut_last(s@, c) == Some((a@, b@)),
            None => cut_last(s@, c) is None,
        },
{
    let v = to_chars(s);
    let n: usize = v.len();
    match last_index_of(&v, c) {
        Some(i) => {
            let a = from_chars(&v, 0, i);
            let b = from_chars(&v, i + 1, n);
            assert(a@ =~= s@.take(i as int));
            assert(b@ =~= s@.skip(i + 1));
            Some((a, b))
        },
        None => None,
    }
}

/// The pieces of `s` between the occurrences of `c`.
pub fn split_on(s: &str, c: char) -> (r: Vec<String>)
    ensures
        views(r@) == pieces(s@, c),
        r@.len() >= 1,
{
    let v = to_chars(s);
    let mut out: Vec<String> = Vec::new();
    let mut start: usize = 0;
    let mut i: usize = 0;
    assert(views(out@) + pieces(s@.skip(0), c) =~= pieces(s@, c)) by {
        assert(s@.skip(0) =~= s@);
    }
    while i < v.len()
        invariant
            v@ == s@,
            start <= i <= v@.len(),
            forall|j: int| start <= j < i ==> v@[j] != c,
            views(out@) + pieces(s@.skip(start as int), c) == pieces(s@, c),
        decreases v.len() - i,
    {
        if v[i] == c {
            let piece = from_chars(&v, start, i);
            proof {
                let rest = s@.skip(start as int);
                let k = i - start;
                assert forall|j: int| 0 <= j < k implies rest[j] != c by {
                    assert(rest[j] == s@[start + j]);
                }
                assert(rest[k] == s@[i as int]);
                lemma_first_index_is(rest, c, k);
                assert(rest.take(k) =~= piece@);
                assert(rest.skip(k + 1) =~= s@.skip(i + 1));
            }
            let ghost before = views(out@);
            out.push(piece);
            proof {
                assert(views(out@) =~= before.push(piece@));
                assert(views(out@) + pieces(s@.skip(i + 1), c) =~= before + (seq![piece@] + pieces(
                    s@.skip(i + 1),
                    c,
                )));
            }
            start = i + 1;
        }
        i += 1;
    }
    let piece = from_chars(&v, start, i);
    proof {
        let rest = s@.skip(start as int);
        assert forall|j: int| 0 <= j < rest.len() implies rest[j] != c by {
            assert(rest[j] == s@[start + j]);
        }
        lemma_first_index_is(rest, c, rest.len() as int);
        assert(rest =~= piece@);
    }
    let ghost before = views(out@);
    out.push(piece);
    assert(views(out@) =~= before + seq![piece@]);
    out
}

/// `s` without the leading characters that are in `set`.
pub fn trim_start(s: &str, set: CharSet) -> (r: String)
    ensures
        r@ == trimmed_start(s@, set),
{
    let v = to_chars(s);
    let mut i: usize = 0;
    while i < v.len() && set.contains(v[i])
        invariant
            i <= v@.len(),
            forall|j: int| 0 <= j < i ==> set.has(#[trigger] v@[j]),
        decreases v.len() - i,
    {
        i += 1;
    }
    proof {
        lemma_trimmed_start_is(s@, set, i as int);
        assert(s@.skip(i as int) =~= s@.subrange(i as int, s@.len() as int));
    }
    from_chars(&v, i, v.len())
}

/// `s` without the trailing characters that are in `set`.
pub fn trim_end(s: &str, set: CharSet) -> (r: String)
    ensures
        r@ == trimmed_end(s@, set),
{
    let v = to_chars(s);
    let mut i: usize = v.len();
    while i > 0 && set.contains(v[i - 1])
        invariant
            i <= v@.len(),
            forall|j: int| i <= j < v@.len() ==> set.has(#[trigger] v@[j]),
        decreases i,
    {
        i -= 1;
    }
    proof {
        lemma_trimmed_end_is(s@, set, i as int);
        assert(s@.take(i as int) =~= s@.subrange(0, i as int));
    }
    from_chars(&v, 0, i)
}

/// `s` without the characters at either end that are in `set`.
pub fn trim(s: &str, set: CharSet) -> (r: String)
    ensures
        r@ == trimmed(s@, set),
{
    let t = trim_start(s, set);
    trim_end(t.as_str(), set)
}

/// True if `v` holds `pat` at index `i`.
fn matches_at(v: &[char], pat: &[char], i: usize) -> (r: bool)
    requires
        i <= v@.len(),
    ensures
        r == pat@.is_prefix_of(v@.skip(i as int)),
{
    let n: usize = v.len();
    if n - i < pat.len() {
        return false;
    }
    let mut j: usize = 0;
    while j < pat.len()
        invariant
            j <= pat@.len(),
            i + pat@.len() <= n == v@.len(),
            forall|k: int| 0 <= k < j ==> v@[i + k] == pat@[k],
        decreases pat.len() - j,
    {
        if v[i + j] != pat[j] {
            assert(v@.skip(i as int)[j as int] != pat@[j as int]);
            return false;
        }
        j += 1;
    }
    assert(v@.skip(i as int).subrange(0, pat@.len() as int) =~= pat@);
    true
}

/// What follows `prefix` in `s`, if `s` begins with it.
pub fn strip_prefix(s: &str, prefix: &str) -> (r: Option<String>)
    ensures
        match r {
            Some(rest) => prefix@.is_prefix_of(s@) && rest@ == s@.skip(prefix@.len() as int),
            None => !prefix@.is_prefix_of(s@),
        },
{
    let v = to_chars(s);
    let p = to_chars(prefix);
    assert(v@.skip(0) =~= v@);
    if matches_at(&v, &p, 0) {
        let rest = from_chars(&v, p.len(), v.len());
        assert(rest@ =~= s@.skip(prefix@.len() as int));
        Some(rest)
    } else {
        None
    }
}

/// `s` with each occurrence of `pat` put as `with`.
pub fn replace(s: &str, pat: &str, with: &str) -> (r: String)
    ensures
        r@ == replaced(s@, pat@, with@),
{
    let v = to_chars(s);
    let p = to_chars(pat);
    if p.len() == 0 {
        return s.to_owned();
    }
    let mut out: String = String::new();
    let mut i: usize = 0;
    assert(s@.skip(0) =~= s@);
    assert(out@ + replaced(s@, pat@, with@) =~= replaced(s@, pat@, with@));
    while i < v.len()
        invariant
            v@ == s@,
            p@ == pat@,
            p@.len() > 0,
            i <= v@.len(),
            out@ + replaced(s@.skip(i as int), pat@, with@) == replaced(s@, pat@, with@),
        decreases v.len() - i,
    {
        let ghost rest = s@.skip(i as int);
        let ghost before = out@;
        if matches_at(&v, &p, i) {
            out.append(with);
            proof {
                assert(rest.skip(p@.len() as int) =~= s@.skip(i + p@.len()));
                assert(out@ + replaced(s@.skip(i + p@.len()), pat@, with@) =~= before + (with@
                    + replaced(s@.skip(i + p@.len()), pat@, with@)));
            }
            i += p.len();
        } else {
            out.push(v[i]);
            proof {
                assert(rest.skip(1) =~= s@.skip(i + 1));
                assert(out@ + replaced(s@.skip(i + 1), pat@, with@) =~= before + (seq![rest[0]]
                    + replaced(s@.skip(i + 1), pat@, with@)));
            }
            i += 1;
        }
    }
    assert(s@.skip(i as int).len() == 0);
    assert(out@ + s@.skip(i as int) =~= out@);
    out
}

/// `s` with its ASCII letters in lower case.
pub fn to_lower(s: &str) -> (r: String)
    ensures
        r@ == lowered(s@),
{
    let v = to_chars(s);
    let mut out: String = String::new();
    let mut i: usize = 0;
    while i < v.len()
        invariant
            v@ == s@,
            i <= v@.len(),
            out@ == lowered(s@).take(i as int),
        decreases v.len() - i,
    {
        let c = v[i];
        let l: char = if 'A' <= c && c <= 'Z' {
            (c as u8 + 32) as char
        } else {
            c
        };
        out.push(l);
        assert(lowered(s@).take(i + 1) =~= lowered(s@).take(i as int).push(l));
        i += 1;
    }
    assert(lowered(s@).take(i as int) =~= lowered(s@));
    out
}

/// Appends the decimal digits of `n`.
pub fn push_u64(s: &mut String, n: u64)
    ensures
        final(s)@ == old(s)@ + decimal(n as nat),
    decreases n,
{
    if n >= 10 {
        push_u64(s, n / 10);
        s.push(digit(n % 10));
    } else {
        s.push(digit(n));
    }
    assert(s@ =~= old(s)@ + decimal(n as nat));
}

/// The decimal digits of `n`, padded with zeros to `width` characters.
pub fn padded_text(n: u64, width: usize) -> (r: String)
    ensures
        r@ == zero_padded(decimal(n as nat), width as nat),
{
    let mut out = String::new();
    push_u64(&mut out, n);
    let ghost plain = decimal(n as nat);
    assert(out@ =~= plain);
    let mut count: usize = to_chars(out.as_str()).len();
    assert(zero_padded(plain, count as nat) == plain);
    while count < width
        invariant
            out@ == zero_padded(plain, count as nat),
            plain.len() <= count,
            count >= width ==> out@ == zero_padded(plain, width as nat),
        decreases width - count,
    {
        let mut longer = "0".to_owned();
        longer.append(out.as_str());
        proof {
            reveal_strlit("0");
            assert("0"@ =~= seq!['0']);
        }
        out = longer;
        count += 1;
    }
    out
}

/// Appends the decimal digits of `n`, behind a minus sign if it is negative.
pub fn push_i64(s: &mut String, n: i64)
    ensures
        final(s)@ == old(s)@ + decimal_int(n as int),
{
    if n < 0 {
        s.push('-');
        if n == i64::MIN {
            let ghost before = s@;
            push_u64(s, 9223372036854775808u64);
            assert(s@ =~= old(s)@ + decimal_int(n as int));
        } else {
            push_u64(s, (-n) as u64);
            assert(s@ =~= old(s)@ + decimal_int(n as int));
        }
    } else {
        push_u64(s, n as u64);
    }
}

/// The value of `v[from..]` if those are decimal digits and it is at most `max`.
fn digits_from(v: &[char], from: usize, max: u64) -> (r: Option<u64>)
    requires
        from <= v@.len(),
    ensures
        match r {
            Some(n) => all_digits(v@.skip(from as int)) && digits_value(v@.skip(from as int)) == n
                && n <= max,
            None => !all_digits(v@.skip(from as int)) || digits_value(v@.skip(from as int)) > max,
        },
{
    let ghost d = v@.skip(from as int);
    if from == v.len() {
        return None;
    }
    let mut i: usize = from;
    let mut value: u64 = 0;
    assert(d.take(0) =~= Seq::<char>::empty());
    while i < v.len()
        invariant
            from <= i <= v@.len(),
            d == v@.skip(from as int),
            forall|j: int| 0 <= j < i - from ==> is_digit(#[trigger] d[j]),
            value == digits_value(d.take(i - from)),
            value <= max,
        decreases v.len() - i,
    {
        let c = v[i];
        let ghost k = i - from;
        assert(d[k] == c);
        if !is_digit_char(c) {
            return None;
        }
        let x: u64 = (c as u8 - 48) as u64;
        proof {
            assert(d.take(k + 1).drop_last() =~= d.take(k));
            assert(d.take(k + 1).last() == c);
            lemma_digits_grow(d, k + 1);
        }
        let tens: u64 = match value.checked_mul(10) {
            Some(t) => t,
            None => return None,
        };
        let next: u64 = match tens.checked_add(x) {
            Some(t) => t,
            None => return None,
        };
        if next > max {
            return None;
        }
        value = next;
        i += 1;
    }
    assert(d.take(i - from) =~= d);
    Some(value)
}

/// More digits never write a smaller number.
proof fn lemma_digits_grow(d: Seq<char>, k: int)
    requires
        0 <= k <= d.len(),
    ensures
        all_digits(d) ==> digits_value(d.take(k)) <= digits_value(d),
    decreases d.len() - k,
{
    if k == d.len() {
        assert(d.take(k) =~= d);
    } else {
        lemma_digits_grow(d, k + 1);
        assert(d.take(k + 1).drop_last() =~= d.take(k));
    }
}

/// The number that `s` writes, if it is at most `max`.
pub fn parse_up_to(s: &str, max: u64) -> (r: Option<u64>)
    ensures
        match r {
            Some(n) => number_up_to(s@, max as nat) == Some(n as nat),
            None => number_up_to(s@, max as nat) is None,
        },
{
    let v = to_chars(s);
    assert(v@.skip(0) =~= v@);
    if v.len() > 0 && v[0] == '+' {
        digits_from(&v, 1, max)
    } else {
        digits_from(&v, 0, max)
    }
}

/// The signed number that `s` writes, if it fits.
pub fn parse_i64(s: &str) -> (r: Option<i64>)
    ensures
        match r {
            Some(n) => signed_number(s@) == Some(n as int),
            None => signed_number(s@) is None,
        },
{
    let v = to_chars(s);
    if v.len() > 0 && v[0] == '-' {
        match digits_from(&v, 1, 9223372036854775808u64) {
            Some(n) => {
                if n == 9223372036854775808u64 {
                    Some(i64::MIN)
                } else {
                    Some(-(n as i64))
                }
            },
            None => None,
        }
    } else {
        match parse_up_to(s, 9223372036854775807u64) {
            Some(n) => Some(n as i64),
            None => None,
        }
    }
}

// ---- order ------------------------------------------------------------------

/// True if `a` sorts before `b`: by their first difference, a text before every
/// longer one that it begins.
pub open spec fn text_lt(a: Seq<char>, b: Seq<char>) -> bool
    decreases a.len(),
{
    if b.len() == 0 {
        false
    } else if a.len() == 0 {
        true
    } else if a[0] == b[0] {
        text_lt(a.drop_first(), b.drop_first())
    } else {
        a[0] < b[0]
    }
}

/// The order of texts is total: of two different ones, exactly one sorts first.
pub proof fn text_lt_is_total(a: Seq<char>, b: Seq<char>)
    ensures
        !(text_lt(a, b) && text_lt(b, a)),
        a != b ==> text_lt(a, b) || text_lt(b, a),
        a == b ==> !text_lt(a, b),
    decreases a.len(),
{
    if a.len() > 0 && b.len() > 0 && a[0] == b[0] {
        text_lt_is_total(a.drop_first(), b.drop_first());
        if a.drop_first() == b.drop_first() {
            assert(a =~= seq![a[0]] + a.drop_first());
            assert(b =~= seq![b[0]] + b.drop_first());
        }
    } else if a.len() == 0 && b.len() == 0 {
        assert(a =~= b);
    }
}

/// What sorts before a text sorts before all that this text sorts before.
pub proof fn text_lt_is_transitive(a: Seq<char>, b: Seq<char>, c: Seq<char>)
    requires
        text_lt(a, b),
        text_lt(b, c),
    ensures
        text_lt(a, c),
    decreases a.len(),
{
    if a.len() > 0 && a[0] == b[0] && b[0] == c[0] {
        text_lt_is_transitive(a.drop_first(), b.drop_first(), c.drop_first());
    }
}

/// True if `a` sorts before `b`.
pub fn text_less(a: &str, b: &str) -> (r: bool)
    ensures
        r == text_lt(a@, b@),
{
    let x = to_chars(a);
    let y = to_chars(b);
    let mut i: usize = 0;
    assert(a@.skip(0) =~= a@);
    assert(b@.skip(0) =~= b@);
    loop
        invariant
            x@ == a@,
            y@ == b@,
            i <= x@.len(),
            i <= y@.len(),
            text_lt(a@.skip(i as int), b@.skip(i as int)) == text_lt(a@, b@),
        decreases x.len() - i,
    {
        if i >= y.len() {
            return false;
        }
        if i >= x.len() {
            return true;
        }
        assert(a@.skip(i as int).drop_first() =~= a@.skip(i + 1));
        assert(b@.skip(i as int).drop_first() =~= b@.skip(i + 1));
        if x[i] != y[i] {
            return x[i] < y[i];
        }
        i += 1;
    }
}

/// The indices in `sorted` with `i` put behind every name that does not sort after
/// its own.
pub open spec fn placed(names: Seq<Seq<char>>, sorted: Seq<int>, i: int) -> Seq<int>
    decreases sorted.len(),
{
    if sorted.len() == 0 || !text_lt(names[i], names[sorted.last()]) {
        sorted.push(i)
    } else {
        placed(names, sorted.drop_last(), i).push(sorted.last())
    }
}

/// The indices of the names to keep among the first `n`, sorted by name.
pub open spec fn arranged(names: Seq<Seq<char>>, keep: Seq<bool>, n: nat) -> Seq<int>
    decreases n,
{
    if n == 0 {
        seq![]
    } else {
        let rest = arranged(names, keep, (n - 1) as nat);
        if keep[n - 1] {
            placed(names, rest, n - 1)
        } else {
            rest
        }
    }
}

/// True of indices whose names do not fall.
pub open spec fn names_rise(names: Seq<Seq<char>>, order: Seq<int>) -> bool {
    forall|a: int, b: int|
        0 <= a <= b < order.len() ==> !text_lt(names[#[trigger] order[b]], names[#[trigger] order[a]])
}

proof fn lemma_placed(names: Seq<Seq<char>>, sorted: Seq<int>, i: int)
    requires
        names_rise(names, sorted),
    ensures
        names_rise(names, placed(names, sorted, i)),
        placed(names, sorted, i).len() == sorted.len() + 1,
        forall|x: int| #[trigger] placed(names, sorted, i).contains(x) <==> sorted.contains(x) || x == i,
    decreases sorted.len(),
{
    let r = placed(names, sorted, i);
    if sorted.len() == 0 || !text_lt(names[i], names[sorted.last()]) {
        assert forall|a: int, b: int| 0 <= a <= b < r.len() implies !text_lt(
            names[#[trigger] r[b]],
            names[#[trigger] r[a]],
        ) by {
            text_lt_is_total(names[r[b]], names[r[a]]);
            if b == sorted.len() && a < b {
                let last = sorted[sorted.len() - 1];
                assert(!text_lt(names[last], names[sorted[a]]));
                if text_lt(names[i], names[sorted[a]]) {
                    text_lt_is_total(names[last], names[sorted[a]]);
                    if names[last] == names[sorted[a]] {
                        assert(false);
                    } else {
                        text_lt_is_transitive(names[i], names[sorted[a]], names[last]);
                    }
                }
            }
        }
        assert forall|x: int| #[trigger] r.contains(x) <==> sorted.contains(x) || x == i by {
            if sorted.contains(x) {
                let k = choose|k: int| 0 <= k < sorted.len() && sorted[k] == x;
                assert(r[k] == x);
            }
            if x == i {
                assert(r[sorted.len() as int] == i);
            }
            if r.contains(x) && x != i {
                let k = choose|k: int| 0 <= k < r.len() && r[k] == x;
                assert(sorted[k] == x);
            }
        }
    } else {
        let head = sorted.drop_last();
        let last = sorted.last();
        assert(names_rise(names, head)) by {
            assert forall|a: int, b: int| 0 <= a <= b < head.len() implies !text_lt(
                names[#[trigger] head[b]],
                names[#[trigger] head[a]],
            ) by {
                assert(head[a] == sorted[a] && head[b] == sorted[b]);
            }
        }
        lemma_placed(names, head, i);
        let p = placed(names, head, i);
        assert(r =~= p.push(last));
        assert forall|a: int, b: int| 0 <= a <= b < r.len() implies !text_lt(
            names[#[trigger] r[b]],
            names[#[trigger] r[a]],
        ) by {
            text_lt_is_total(names[r[b]], names[r[a]]);
            if b < p.len() {
                assert(p[a] == r[a] && p[b] == r[b]);
            } else if a < p.len() {
                assert(p.contains(p[a]));
                if p[a] == i {
                    text_lt_is_total(names[i], names[last]);
                } else {
                    assert(head.contains(p[a]));
                    let k = choose|k: int| 0 <= k < head.len() && head[k] == p[a];
                    assert(sorted[k] == head[k]);
                    assert(sorted[sorted.len() - 1] == last);
                    assert(!text_lt(names[sorted[sorted.len() - 1]], names[sorted[k]]));
                }
            }
        }
        assert forall|x: int| #[trigger] r.contains(x) <==> sorted.contains(x) || x == i by {
            if r.contains(x) {
                let k = choose|k: int| 0 <= k < r.len() && r[k] == x;
                if k < p.len() {
                    assert(p[k] == x);
                    assert(p.contains(x));
                    if x != i {
                        assert(head.contains(x));
                        let m = choose|m: int| 0 <= m < head.len() && head[m] == x;
                        assert(sorted[m] == head[m]);
                    }
                } else {
                    assert(sorted[sorted.len() - 1] == x);
                }
            }
            if sorted.contains(x) {
                let k = choose|k: int| 0 <= k < sorted.len() && sorted[k] == x;
                if k < head.len() {
                    assert(head[k] == x);
                    assert(head.contains(x));
                    assert(p.contains(x));
                    let m = choose|m: int| 0 <= m < p.len() && p[m] == x;
                    assert(r[m] == x);
                } else {
                    assert(r[p.len() as int] == x);
                }
            }
            if x == i {
                assert(p.contains(x));
                let m = choose|m: int| 0 <= m < p.len() && p[m] == x;
                assert(r[m] == x);
            }
        }
    }
}

/// How many of the first `n` are to be kept.
pub open spec fn kept(keep: Seq<bool>, n: nat) -> nat
    decreases n,
{
    if n == 0 {
        0
    } else {
        kept(keep, (n - 1) as nat) + if keep[n - 1] { 1nat } else { 0nat }
    }
}

/// Arranging keeps each index that is to be kept, once, and sorts by name.
pub proof fn arranged_is_sorted(names: Seq<Seq<char>>, keep: Seq<bool>, n: nat)
    requires
        n <= names.len(),
        n <= keep.len(),
    ensures
        names_rise(names, arranged(names, keep, n)),
        arranged(names, keep, n).len() == kept(keep, n),
        forall|i: int| #[trigger] arranged(names, keep, n).contains(i) <==> 0 <= i < n && keep[i],
    decreases n,
{
    if n > 0 {
        let rest = arranged(names, keep, (n - 1) as nat);
        arranged_is_sorted(names, keep, (n - 1) as nat);
        if keep[n - 1] {
            lemma_placed(names, rest, n - 1);
        }
        let all = arranged(names, keep, n);
        assert forall|i: int| #[trigger] all.contains(i) <==> 0 <= i < n && keep[i] by {
            assert(rest.contains(i) <==> 0 <= i < n - 1 && keep[i]);
        }
    } else {
        assert forall|i: int| !(#[trigger] arranged(names, keep, n).contains(i)) by {}
    }
}

/// The numbers in a list of indices.
pub open spec fn indices(v: Seq<usize>) -> Seq<int> {
    Seq::new(v.len(), |i: int| v[i] as int)
}

/// The indices of the names to keep, sorted by name.
pub fn arrange(names: &Vec<String>, keep: &Vec<bool>) -> (r: Vec<usize>)
    requires
        names@.len() == keep@.len(),
    ensures
        indices(r@) == arranged(views(names@), keep@, names@.len()),
        forall|k: int| 0 <= k < r@.len() ==> (#[trigger] r@[k]) < names@.len(),
{
    let ghost ns = views(names@);
    let mut out: Vec<usize> = Vec::new();
    let mut i: usize = 0;
    assert(indices(out@) =~= seq![]);
    while i < names.len()
        invariant
            names@.len() == keep@.len(),
            ns == views(names@),
            i <= names@.len(),
            indices(out@) == arranged(ns, keep@, i as nat),
            forall|k: int| 0 <= k < out@.len() ==> (#[trigger] out@[k]) < i,
        decreases names.len() - i,
    {
        if keep[i] {
            let ghost before = out@;
            let mut p: usize = out.len();
            let ghost mut tail: Seq<int> = seq![];
            proof {
                assert(indices(before).take(p as int) =~= indices(before));
                assert(placed(ns, indices(before), i as int) + tail =~= placed(
                    ns,
                    indices(before),
                    i as int,
                ));
            }
            while p > 0 && text_less(names[i].as_str(), names[out[p - 1]].as_str())
                invariant
                    names@.len() == keep@.len(),
                    ns == views(names@),
                    i < names@.len(),
                    out@ == before,
                    forall|k: int| 0 <= k < out@.len() ==> (#[trigger] out@[k]) < i,
                    p <= before.len(),
                    tail == indices(before).skip(p as int),
                    placed(ns, indices(before), i as int) == placed(
                        ns,
                        indices(before).take(p as int),
                        i as int,
                    ) + tail,
                decreases p,
            {
                proof {
                    let h = indices(before).take(p as int);
                    assert(h.last() == before[p - 1]);
                    assert(ns[h.last()] == names@[before[p - 1] as int]@);
                    assert(ns[i as int] == names@[i as int]@);
                    assert(h.drop_last() =~= indices(before).take(p - 1));
                    tail = seq![h.last()] + tail;
                    assert(tail =~= indices(before).skip(p - 1));
                    assert(placed(ns, h, i as int) + indices(before).skip(p as int) =~= placed(
                        ns,
                        h.drop_last(),
                        i as int,
                    ) + tail);
                }
                p -= 1;
            }
            proof {
                let h = indices(before).take(p as int);
                if p > 0 {
                    assert(h.last() == before[p - 1]);
                    assert(ns[h.last()] == names@[before[p - 1] as int]@);
                    assert(ns[i as int] == names@[i as int]@);
                }
                assert(placed(ns, h, i as int) == h.push(i as int));
            }
            out.insert(p, i);
            proof {
                assert(out@ =~= before.insert(p as int, i));
                assert(indices(out@) =~= indices(before).take(p as int).push(i as int) + indices(
                    before,
                ).skip(p as int));
                assert forall|k: int| 0 <= k < out@.len() implies (#[trigger] out@[k]) < i + 1 by {
                    if k < p {
                        assert(out@[k] == before[k]);
                    } else if k > p {
                        assert(out@[k] == before[k - 1]);
                    }
                }
            }
        }
        i += 1;
    }
    out
}

} // verus!
