//! Character-level text operations with their mathematical meaning.
//!
//! Strings are modelled by their view, a `Seq<char>`. Substrings are handled as
//! index ranges into a `Vec<char>` so that parsers can work without copying.

use vstd::prelude::*;

verus! {

/// `String::push` appends one character.
pub assume_specification[ std::string::String::push ](s: &mut String, ch: char)
    ensures
        final(s)@ == old(s)@.push(ch),
;

/// The texts of a vector of strings.
pub open spec fn texts(v: Seq<String>) -> Seq<Seq<char>> {
    v.map_values(|s: String| s@)
}

/// The Unicode `White_Space` property, which `char::is_whitespace` tests.
pub open spec fn is_ws(c: char) -> bool {
    let u = c as u32;
    ||| 0x09 <= u <= 0x0D
    ||| u == 0x20
    ||| u == 0x85
    ||| u == 0xA0
    ||| u == 0x1680
    ||| 0x2000 <= u <= 0x200A
    ||| u == 0x2028
    ||| u == 0x2029
    ||| u == 0x202F
    ||| u == 0x205F
    ||| u == 0x3000
}

/// Drops leading whitespace.
pub open spec fn trim_start(s: Seq<char>) -> Seq<char>
    decreases s.len(),
{
    if s.len() > 0 && is_ws(s[0]) {
        trim_start(s.drop_first())
    } else {
        s
    }
}

/// Drops trailing whitespace.
pub open spec fn trim_end(s: Seq<char>) -> Seq<char>
    decreases s.len(),
{
    if s.len() > 0 && is_ws(s.last()) {
        trim_end(s.drop_last())
    } else {
        s
    }
}

/// Drops whitespace at both ends, as `str::trim` does.
pub open spec fn trim(s: Seq<char>) -> Seq<char> {
    trim_end(trim_start(s))
}

/// Every character is whitespace (equivalently: the trimmed text is empty).
pub open spec fn all_ws(s: Seq<char>) -> bool {
    forall|i: int| 0 <= i < s.len() ==> is_ws(#[trigger] s[i])
}

/// ASCII upper-case letters are mapped to lower case; all else is unchanged.
pub open spec fn ascii_lower(c: char) -> char {
    if 'A' <= c && c <= 'Z' {
        ((c as u32) + 32) as char
    } else {
        c
    }
}

/// `str::eq_ignore_ascii_case`.
pub open spec fn eq_ignore_ascii_case(a: Seq<char>, b: Seq<char>) -> bool {
    &&& a.len() == b.len()
    &&& forall|i: int| 0 <= i < a.len() ==> ascii_lower(#[trigger] a[i]) == ascii_lower(b[i])
}

/// `str::to_ascii_lowercase`.
pub open spec fn to_ascii_lowercase(s: Seq<char>) -> Seq<char> {
    s.map_values(|c: char| ascii_lower(c))
}

/// `s` begins with `p`.
pub open spec fn starts_with(s: Seq<char>, p: Seq<char>) -> bool {
    p.len() <= s.len() && s.subrange(0, p.len() as int) == p
}

/// `p` occurs in `s` at position `i`.
pub open spec fn occurs_at(s: Seq<char>, p: Seq<char>, i: int) -> bool {
    0 <= i && i + p.len() <= s.len() && s.subrange(i, i + p.len()) == p
}

/// `p` occurs somewhere in `s`.
pub open spec fn contains(s: Seq<char>, p: Seq<char>) -> bool {
    exists|i: int| occurs_at(s, p, i)
}

/// Index of the first occurrence of `c`, or -1.
pub open spec fn first_index(s: Seq<char>, c: char) -> int
    decreases s.len(),
{
    if s.len() == 0 {
        -1
    } else if s[0] == c {
        0
    } else {
        let r = first_index(s.drop_first(), c);
        if r < 0 {
            -1
        } else {
            r + 1
        }
    }
}

/// `str::split_once` with a single-character separator.
pub open spec fn split_once(s: Seq<char>, c: char) -> Option<(Seq<char>, Seq<char>)> {
    let i = first_index(s, c);
    if i < 0 {
        None
    } else {
        Some((s.subrange(0, i), s.subrange(i + 1, s.len() as int)))
    }
}

/// All pieces of `s` between occurrences of `sep` (one more piece than separators).
pub open spec fn split_on(s: Seq<char>, sep: char) -> Seq<Seq<char>>
    decreases s.len(),
{
    if s.len() == 0 {
        seq![Seq::<char>::empty()]
    } else {
        let rest = split_on(s.drop_last(), sep);
        if s.last() == sep {
            rest.push(Seq::<char>::empty())
        } else {
            rest.update(rest.len() - 1, rest.last().push(s.last()))
        }
    }
}

/// The lines of a text: the pieces between `'\n'`, without an empty piece after a
/// final line ending. A carriage return before `'\n'` stays in its line; every
/// caller trims lines, and a carriage return is whitespace.
pub open spec fn lines(s: Seq<char>) -> Seq<Seq<char>> {
    let p = split_on(s, '\n');
    if p.last().len() == 0 {
        p.drop_last()
    } else {
        p
    }
}

/// The ASCII hexadecimal digits.
pub open spec fn is_hex(c: char) -> bool {
    ('0' <= c && c <= '9') || ('a' <= c && c <= 'f') || ('A' <= c && c <= 'F')
}

/// The value of a hexadecimal digit.
pub open spec fn hex_val(c: char) -> nat {
    if '0' <= c && c <= '9' {
        ((c as u32) - 48) as nat
    } else if 'a' <= c && c <= 'f' {
        ((c as u32) - 87) as nat
    } else {
        ((c as u32) - 55) as nat
    }
}

/// The decimal digits.
pub open spec fn is_digit(c: char) -> bool {
    '0' <= c && c <= '9'
}

/// The value of a string of digits in the given base.
pub open spec fn digits_value(s: Seq<char>, base: nat) -> nat
    decreases s.len(),
{
    if s.len() == 0 {
        0
    } else {
        digits_value(s.drop_last(), base) * base + if base == 16 {
            hex_val(s.last())
        } else {
            ((s.last() as u32) - 48) as nat
        }
    }
}

/// The digits of an unsigned integer, as `std` would parse them: an optional
/// `+`, then at least one digit.
pub open spec fn unsigned_digits(s: Seq<char>) -> Seq<char> {
    if s.len() > 0 && s[0] == '+' {
        s.drop_first()
    } else {
        s
    }
}

/// `u64::from_str`: an optional `+` and one or more decimal digits, within range.
pub open spec fn parse_u64_spec(s: Seq<char>) -> Option<u64> {
    let d = unsigned_digits(s);
    if d.len() > 0 && (forall|i: int| 0 <= i < d.len() ==> is_digit(#[trigger] d[i]))
        && digits_value(d, 10) <= u64::MAX {
        Some(digits_value(d, 10) as u64)
    } else {
        None
    }
}

/// `u16::from_str_radix(s, 16)`: an optional `+` and one or more hex digits, within range.
pub open spec fn parse_hex_u16_spec(s: Seq<char>) -> Option<u16> {
    let d = unsigned_digits(s);
    if d.len() > 0 && (forall|i: int| 0 <= i < d.len() ==> is_hex(#[trigger] d[i]))
        && digits_value(d, 16) <= u16::MAX {
        Some(digits_value(d, 16) as u16)
    } else {
        None
    }
}

/// The character of a decimal digit.
pub open spec fn digit_char(d: nat) -> char {
    if d == 0 {
        '0'
    } else if d == 1 {
        '1'
    } else if d == 2 {
        '2'
    } else if d == 3 {
        '3'
    } else if d == 4 {
        '4'
    } else if d == 5 {
        '5'
    } else if d == 6 {
        '6'
    } else if d == 7 {
        '7'
    } else if d == 8 {
        '8'
    } else {
        '9'
    }
}

/// The decimal representation of a natural number, without leading zeros.
pub open spec fn decimal(n: nat) -> Seq<char>
    decreases n,
{
    if n < 10 {
        seq![digit_char(n)]
    } else {
        decimal(n / 10).push(digit_char(n % 10))
    }
}

/// A decimal representation is made of digits, one at least, and two at least
/// from ten on.
pub proof fn lemma_decimal_digits(n: nat)
    ensures
        decimal(n).len() >= 1,
        n >= 10 ==> decimal(n).len() >= 2,
        forall|i: int| 0 <= i < decimal(n).len() ==> is_digit(#[trigger] decimal(n)[i]),
    decreases n,
{
    if n >= 10 {
        lemma_decimal_digits(n / 10);
        assert forall|i: int| 0 <= i < decimal(n).len() implies is_digit(#[trigger] decimal(n)[i]) by {
            if i < decimal(n / 10).len() {
                assert(decimal(n)[i] == decimal(n / 10)[i]);
            }
        }
    }
}

/// A decimal representation reads back as its number.
pub proof fn lemma_decimal_parses_back(n: nat)
    requires
        n <= u64::MAX,
    ensures
        parse_u64_spec(decimal(n)) == Some(n as u64),
{
    lemma_decimal_value(n);
    lemma_decimal_digits(n);
    assert(unsigned_digits(decimal(n)) == decimal(n));
}

proof fn lemma_decimal_value(n: nat)
    ensures
        digits_value(decimal(n), 10) == n,
    decreases n,
{
    let d = decimal(n);
    if n >= 10 {
        lemma_decimal_value(n / 10);
        assert(d.drop_last() =~= decimal(n / 10));
        lemma_digit_char_value(n % 10);
        assert(d.last() == digit_char(n % 10));
        assert(digits_value(d, 10) == digits_value(d.drop_last(), 10) * 10 + ((d.last() as u32)
            - 48) as nat);
        assert(n == (n / 10) * 10 + n % 10);
    } else {
        assert(d.drop_last() =~= Seq::<char>::empty());
        lemma_digit_char_value(n);
        assert(d.last() == digit_char(n));
        assert(digits_value(d, 10) == digits_value(d.drop_last(), 10) * 10 + ((d.last() as u32)
            - 48) as nat);
    }
}

proof fn lemma_digit_char_value(k: nat)
    requires
        k < 10,
    ensures
        ((digit_char(k) as u32) - 48) as nat == k,
{
}

/// Different numbers have different decimal representations.
pub proof fn lemma_decimal_injective(a: nat, b: nat)
    requires
        decimal(a) == decimal(b),
    ensures
        a == b,
    decreases a,
{
    lemma_decimal_digits(a);
    lemma_decimal_digits(b);
    if a >= 10 && b >= 10 {
        assert(decimal(a).drop_last() =~= decimal(a / 10));
        assert(decimal(b).drop_last() =~= decimal(b / 10));
        lemma_decimal_injective(a / 10, b / 10);
        assert(digit_char(a % 10) == decimal(a).last());
        assert(digit_char(b % 10) == decimal(b).last());
        lemma_digit_char_injective(a % 10, b % 10);
    } else if a < 10 && b < 10 {
        assert(decimal(a)[0] == digit_char(a));
        assert(decimal(b)[0] == digit_char(b));
        lemma_digit_char_injective(a, b);
    }
}

proof fn lemma_digit_char_injective(a: nat, b: nat)
    requires
        a < 10,
        b < 10,
        digit_char(a) == digit_char(b),
    ensures
        a == b,
{
}

/// The decimal representation of a signed integer, as `Display` writes it.
pub open spec fn signed_decimal(n: int) -> Seq<char> {
    if n < 0 {
        seq!['-'] + decimal((-n) as nat)
    } else {
        decimal(n as nat)
    }
}

// ---------------------------------------------------------------------------
// Executable operations
// ---------------------------------------------------------------------------

/// `char::is_whitespace`.
pub fn is_whitespace(c: char) -> (r: bool)
    ensures
        r == is_ws(c),
{
    let u = c as u32;
    (0x09 <= u && u <= 0x0D) || u == 0x20 || u == 0x85 || u == 0xA0 || u == 0x1680 || (0x2000
        <= u && u <= 0x200A) || u == 0x2028 || u == 0x2029 || u == 0x202F || u == 0x205F || u
        == 0x3000
}

/// The characters of a string.
pub fn chars_of(s: &str) -> (r: Vec<char>)
    ensures
        r@ == s@,
{
    let n = s.unicode_len();
    let mut r: Vec<char> = Vec::new();
    let mut i: usize = 0;
    while i < n
        invariant
            n == s@.len(),
            i <= n,
            r@ == s@.subrange(0, i as int),
        decreases n - i,
    {
        r.push(s.get_char(i));
        i = i + 1;
    }
    r
}

/// A string holding the characters `v[lo..hi]`.
pub fn string_of_range(v: &Vec<char>, lo: usize, hi: usize) -> (r: String)
    requires
        lo <= hi <= v@.len(),
    ensures
        r@ == v@.subrange(lo as int, hi as int),
{
    let mut r = String::new();
    let mut i = lo;
    while i < hi
        invariant
            lo <= i <= hi <= v@.len(),
            r@ == v@.subrange(lo as int, i as int),
        decreases hi - i,
    {
        r.push(v[i]);
        i = i + 1;
    }
    r
}

proof fn lemma_trim_start_step(v: Seq<char>, a: int, hi: int)
    requires
        0 <= a < hi <= v.len(),
        is_ws(v[a]),
    ensures
        trim_start(v.subrange(a, hi)) == trim_start(v.subrange(a + 1, hi)),
{
    assert(v.subrange(a, hi).drop_first() =~= v.subrange(a + 1, hi));
}

proof fn lemma_trim_end_step(v: Seq<char>, a: int, b: int)
    requires
        0 <= a < b <= v.len(),
        is_ws(v[b - 1]),
    ensures
        trim_end(v.subrange(a, b)) == trim_end(v.subrange(a, b - 1)),
{
    assert(v.subrange(a, b).drop_last() =~= v.subrange(a, b - 1));
}

/// The range of `v[lo..hi]` that remains after trimming whitespace at both ends.
pub fn trim_range(v: &Vec<char>, lo: usize, hi: usize) -> (r: (usize, usize))
    requires
        lo <= hi <= v@.len(),
    ensures
        lo <= r.0 <= r.1 <= hi,
        v@.subrange(r.0 as int, r.1 as int) == trim(v@.subrange(lo as int, hi as int)),
{
    let mut a = lo;
    while a < hi && is_whitespace(v[a])
        invariant
            lo <= a <= hi <= v@.len(),
            trim_start(v@.subrange(lo as int, hi as int)) == trim_start(
                v@.subrange(a as int, hi as int),
            ),
        decreases hi - a,
    {
        proof {
            lemma_trim_start_step(v@, a as int, hi as int);
        }
        a = a + 1;
    }
    assert(trim_start(v@.subrange(a as int, hi as int)) == v@.subrange(a as int, hi as int));
    let mut b = hi;
    while b > a && is_whitespace(v[b - 1])
        invariant
            lo <= a <= b <= hi <= v@.len(),
            trim_end(v@.subrange(a as int, hi as int)) == trim_end(
                v@.subrange(a as int, b as int),
            ),
        decreases b - a,
    {
        proof {
            lemma_trim_end_step(v@, a as int, b as int);
        }
        b = b - 1;
    }
    assert(trim_end(v@.subrange(a as int, b as int)) == v@.subrange(a as int, b as int));
    (a, b)
}

/// `str::trim`, returning an owned string.
pub fn trim_string(s: &str) -> (r: String)
    ensures
        r@ == trim(s@),
{
    let v = chars_of(s);
    let (a, b) = trim_range(&v, 0, v.len());
    assert(v@.subrange(0, v@.len() as int) =~= v@);
    string_of_range(&v, a, b)
}


/// The pieces of `v` between occurrences of `sep`, as ranges.
pub fn split_ranges(v: &Vec<char>, sep: char) -> (r: Vec<(usize, usize)>)
    ensures
        r@.len() >= 1,
        forall|j: int| 0 <= j < r@.len() ==> #[trigger] r@[j].0 <= r@[j].1 <= v@.len(),
        r@.map_values(|p: (usize, usize)| v@.subrange(p.0 as int, p.1 as int)) == split_on(v@, sep),
        r@.last().1 == v@.len(),
{
    let mut out: Vec<(usize, usize)> = Vec::new();
    let mut cur: usize = 0;
    let mut i: usize = 0;
    assert(v@.subrange(0, 0) =~= Seq::<char>::empty());
    while i < v.len()
        invariant
            cur <= i <= v@.len(),
            forall|j: int| 0 <= j < out@.len() ==> #[trigger] out@[j].0 <= out@[j].1 <= v@.len(),
            split_on(v@.subrange(0, i as int), sep) == out@.map_values(
                |p: (usize, usize)| v@.subrange(p.0 as int, p.1 as int),
            ).push(v@.subrange(cur as int, i as int)),
        decreases v@.len() - i,
    {
        let ghost pre = v@.subrange(0, i as int);
        assert(v@.subrange(0, i + 1).drop_last() =~= pre);
        assert(v@.subrange(0, i + 1).last() == v@[i as int]);
        if v[i] == sep {
            let ghost old_out = out@;
            out.push((cur, i));
            assert(out@.map_values(|p: (usize, usize)| v@.subrange(p.0 as int, p.1 as int))
                =~= old_out.map_values(|p: (usize, usize)| v@.subrange(p.0 as int, p.1 as int)).push(
                v@.subrange(cur as int, i as int),
            ));
            assert(v@.subrange((i + 1) as int, (i + 1) as int) =~= Seq::<char>::empty());
            cur = i + 1;
        } else {
            assert(v@.subrange(cur as int, i as int).push(v@[i as int]) =~= v@.subrange(
                cur as int,
                i + 1,
            ));
        }
        i = i + 1;
    }
    assert(v@.subrange(0, v@.len() as int) =~= v@);
    let ghost old_out = out@;
    out.push((cur, v.len()));
    assert(out@.map_values(|p: (usize, usize)| v@.subrange(p.0 as int, p.1 as int))
        =~= old_out.map_values(|p: (usize, usize)| v@.subrange(p.0 as int, p.1 as int)).push(
        v@.subrange(cur as int, v@.len() as int),
    ));
    out
}

/// The lines of `v`, as ranges.
pub fn line_ranges(v: &Vec<char>) -> (r: Vec<(usize, usize)>)
    ensures
        forall|j: int| 0 <= j < r@.len() ==> #[trigger] r@[j].0 <= r@[j].1 <= v@.len(),
        r@.map_values(|p: (usize, usize)| v@.subrange(p.0 as int, p.1 as int)) == lines(v@),
{
    let mut r = split_ranges(v, '\n');
    let ghost full = r@.map_values(|p: (usize, usize)| v@.subrange(p.0 as int, p.1 as int));
    let last = r[r.len() - 1];
    assert(full.last() == v@.subrange(last.0 as int, last.1 as int));
    if last.0 == last.1 {
        r.pop();
        assert(r@.map_values(|p: (usize, usize)| v@.subrange(p.0 as int, p.1 as int))
            =~= full.drop_last());
    }
    r
}

proof fn lemma_first_index_found(s: Seq<char>, c: char, i: int)
    requires
        0 <= i < s.len(),
        s[i] == c,
        forall|k: int| 0 <= k < i ==> s[k] != c,
    ensures
        first_index(s, c) == i,
    decreases i,
{
    if i > 0 {
        lemma_first_index_found(s.drop_first(), c, i - 1);
    }
}

proof fn lemma_first_index_absent(s: Seq<char>, c: char)
    requires
        forall|k: int| 0 <= k < s.len() ==> s[k] != c,
    ensures
        first_index(s, c) == -1,
    decreases s.len(),
{
    if s.len() > 0 {
        lemma_first_index_absent(s.drop_first(), c);
    }
}

/// Splitting `n`, `c`, `v` at its first `c` gives `n` and `v` when `n` holds no `c`.
pub proof fn lemma_split_once_at(n: Seq<char>, c: char, v: Seq<char>)
    requires
        forall|i: int| 0 <= i < n.len() ==> n[i] != c,
    ensures
        split_once(n + seq![c] + v, c) == Some((n, v)),
{
    let s = n + seq![c] + v;
    assert forall|k: int| 0 <= k < n.len() implies s[k] != c by {
        assert(s[k] == n[k]);
    }
    lemma_first_index_found(s, c, n.len() as int);
    assert(s.subrange(0, n.len() as int) =~= n);
    assert(s.subrange(n.len() as int + 1, s.len() as int) =~= v);
}

/// Two texts are equal ignoring ASCII case exactly when their ASCII lower-case
/// forms are equal.
pub proof fn lemma_eq_ignore_case_is_lowercase_eq(a: Seq<char>, b: Seq<char>)
    ensures
        eq_ignore_ascii_case(a, b) <==> to_ascii_lowercase(a) == to_ascii_lowercase(b),
{
    let la = to_ascii_lowercase(a);
    let lb = to_ascii_lowercase(b);
    assert(la.len() == a.len() && lb.len() == b.len());
    if la == lb {
        assert forall|i: int| 0 <= i < a.len() implies ascii_lower(#[trigger] a[i]) == ascii_lower(
            b[i],
        ) by {
            assert(la[i] == ascii_lower(a[i]));
            assert(lb[i] == ascii_lower(b[i]));
        }
    }
    if eq_ignore_ascii_case(a, b) {
        assert(to_ascii_lowercase(a) =~= to_ascii_lowercase(b));
    }
}

/// Position of the first `c` in `v[lo..hi]`, as `str::split_once` finds it.
pub fn find_char(v: &Vec<char>, lo: usize, hi: usize, c: char) -> (r: Option<usize>)
    requires
        lo <= hi <= v@.len(),
    ensures
        match r {
            Some(i) => lo <= i < hi && first_index(v@.subrange(lo as int, hi as int), c) == i - lo,
            None => first_index(v@.subrange(lo as int, hi as int), c) == -1,
        },
{
    let mut i = lo;
    while i < hi
        invariant
            lo <= i <= hi <= v@.len(),
            forall|k: int| lo <= k < i ==> v@[k] != c,
        decreases hi - i,
    {
        if v[i] == c {
            proof {
                lemma_first_index_found(v@.subrange(lo as int, hi as int), c, i - lo);
            }
            return Some(i);
        }
        i = i + 1;
    }
    proof {
        lemma_first_index_absent(v@.subrange(lo as int, hi as int), c);
    }
    None
}

/// `v[lo..hi]` equals `lit`.
pub fn range_eq(v: &Vec<char>, lo: usize, hi: usize, lit: &str) -> (r: bool)
    requires
        lo <= hi <= v@.len(),
    ensures
        r == (v@.subrange(lo as int, hi as int) == lit@),
{
    let n = lit.unicode_len();
    if hi - lo != n {
        return false;
    }
    let mut i: usize = 0;
    while i < n
        invariant
            n == lit@.len(),
            hi - lo == n,
            lo <= hi <= v@.len(),
            i <= n,
            forall|k: int| 0 <= k < i ==> v@[lo + k] == lit@[k],
        decreases n - i,
    {
        if v[lo + i] != lit.get_char(i) {
            assert(v@.subrange(lo as int, hi as int)[i as int] != lit@[i as int]);
            return false;
        }
        i = i + 1;
    }
    assert(v@.subrange(lo as int, hi as int) =~= lit@);
    true
}

/// ASCII lower-casing of one character.
pub fn to_ascii_lower(c: char) -> (r: char)
    ensures
        r == ascii_lower(c),
{
    if 'A' <= c && c <= 'Z' {
        ((c as u32) + 32) as u8 as char
    } else {
        c
    }
}

/// `v[lo..hi]` equals `lit` up to ASCII case.
pub fn range_eq_ignore_ascii_case(v: &Vec<char>, lo: usize, hi: usize, lit: &str) -> (r: bool)
    requires
        lo <= hi <= v@.len(),
    ensures
        r == eq_ignore_ascii_case(v@.subrange(lo as int, hi as int), lit@),
{
    let n = lit.unicode_len();
    if hi - lo != n {
        return false;
    }
    let mut i: usize = 0;
    while i < n
        invariant
            n == lit@.len(),
            hi - lo == n,
            lo <= hi <= v@.len(),
            i <= n,
            forall|k: int| 0 <= k < i ==> ascii_lower(v@[lo + k]) == ascii_lower(lit@[k]),
        decreases n - i,
    {
        if to_ascii_lower(v[lo + i]) != to_ascii_lower(lit.get_char(i)) {
            assert(ascii_lower(v@.subrange(lo as int, hi as int)[i as int]) != ascii_lower(
                lit@[i as int],
            ));
            return false;
        }
        i = i + 1;
    }
    assert forall|k: int| 0 <= k < n implies ascii_lower(
        #[trigger] v@.subrange(lo as int, hi as int)[k],
    ) == ascii_lower(lit@[k]) by {
        assert(v@.subrange(lo as int, hi as int)[k] == v@[lo + k]);
    }
    true
}

/// `v[lo..hi]` begins with `lit`.
pub fn range_starts_with(v: &Vec<char>, lo: usize, hi: usize, lit: &str) -> (r: bool)
    requires
        lo <= hi <= v@.len(),
    ensures
        r == starts_with(v@.subrange(lo as int, hi as int), lit@),
{
    let n = lit.unicode_len();
    if hi - lo < n {
        return false;
    }
    let r = range_eq(v, lo, lo + n, lit);
    assert(v@.subrange(lo as int, hi as int).subrange(0, n as int) =~= v@.subrange(
        lo as int,
        lo + n,
    ));
    r
}

/// `lit` occurs in `v[lo..hi]`.
pub fn range_contains(v: &Vec<char>, lo: usize, hi: usize, lit: &str) -> (r: bool)
    requires
        lo <= hi <= v@.len(),
    ensures
        r == contains(v@.subrange(lo as int, hi as int), lit@),
{
    let n = lit.unicode_len();
    let ghost s = v@.subrange(lo as int, hi as int);
    if hi - lo < n {
        assert forall|i: int| !occurs_at(s, lit@, i) by {}
        return false;
    }
    let mut i = lo;
    loop
        invariant
            n == lit@.len(),
            lo <= hi <= v@.len(),
            n <= hi - lo,
            lo <= i <= hi - n,
            s == v@.subrange(lo as int, hi as int),
            forall|k: int| 0 <= k < i - lo ==> !occurs_at(s, lit@, k),
        ensures
            s == v@.subrange(lo as int, hi as int),
            forall|k: int| 0 <= k <= hi - n - lo ==> !occurs_at(s, lit@, k),
        decreases hi - n - i,
    {
        assert(s.subrange(i - lo, i - lo + n) =~= v@.subrange(i as int, i + n));
        if range_eq(v, i, i + n, lit) {
            assert(occurs_at(s, lit@, i - lo));
            return true;
        }
        assert(!occurs_at(s, lit@, i - lo));
        if i == hi - n {
            break;
        }
        i = i + 1;
    }
    assert forall|k: int| !occurs_at(s, lit@, k) by {
        if 0 <= k <= hi - n - lo {
        }
    }
    false
}

/// `char::is_ascii_hexdigit` with the digit's value.
pub fn hex_digit_value(c: char) -> (r: Option<u8>)
    ensures
        match r {
            Some(d) => is_hex(c) && d == hex_val(c),
            None => !is_hex(c),
        },
{
    if '0' <= c && c <= '9' {
        Some(((c as u32) - 48) as u8)
    } else if 'a' <= c && c <= 'f' {
        Some(((c as u32) - 87) as u8)
    } else if 'A' <= c && c <= 'F' {
        Some(((c as u32) - 55) as u8)
    } else {
        None
    }
}

proof fn lemma_digits_value_step(s: Seq<char>, i: int, base: nat)
    requires
        0 <= i < s.len(),
    ensures
        digits_value(s.subrange(0, i + 1), base) == digits_value(s.subrange(0, i), base) * base
            + if base == 16 {
            hex_val(s[i])
        } else {
            ((s[i] as u32) - 48) as nat
        },
{
    assert(s.subrange(0, i + 1).drop_last() =~= s.subrange(0, i));
}

proof fn lemma_digits_value_monotone(s: Seq<char>, i: int, base: nat)
    requires
        0 <= i <= s.len(),
        base >= 1,
        forall|k: int| 0 <= k < s.len() ==> ((s[k] as u32) >= 48 || base == 16),
    ensures
        digits_value(s.subrange(0, i), base) <= digits_value(s, base),
    decreases s.len() - i,
{
    if i < s.len() {
        lemma_digits_value_monotone(s, i + 1, base);
        lemma_digits_value_step(s, i, base);
        let v = digits_value(s.subrange(0, i), base);
        assert(v * base >= v) by (nonlinear_arith)
            requires
                base >= 1,
        ;
    } else {
        assert(s.subrange(0, i) =~= s);
    }
}

/// Value of the digits `v[lo..hi]` in `base` (10 or 16), or `None` above `max`.
fn digits_to_u64(v: &Vec<char>, lo: usize, hi: usize, base: u64, max: u64) -> (r: Option<u64>)
    requires
        lo < hi <= v@.len(),
        base == 10 || base == 16,
        max >= 15,
        forall|k: int| lo <= k < hi ==> if base == 16 {
            is_hex(#[trigger] v@[k])
        } else {
            is_digit(v@[k])
        },
    ensures
        match r {
            Some(x) => x == digits_value(v@.subrange(lo as int, hi as int), base as nat) && x
                <= max,
            None => digits_value(v@.subrange(lo as int, hi as int), base as nat) > max,
        },
{
    let ghost s = v@.subrange(lo as int, hi as int);
    let mut acc: u64 = 0;
    let mut i = lo;
    assert(s.subrange(0, 0) =~= Seq::<char>::empty());
    while i < hi
        invariant
            lo <= i <= hi <= v@.len(),
            base == 10 || base == 16,
            s == v@.subrange(lo as int, hi as int),
            forall|k: int| lo <= k < hi ==> if base == 16 {
                is_hex(#[trigger] v@[k])
            } else {
                is_digit(v@[k])
            },
            acc as nat == digits_value(s.subrange(0, i - lo), base as nat),
            acc <= max,
            max >= 15,
        decreases hi - i,
    {
        let c = v[i];
        let d: u64 = if base == 16 {
            match hex_digit_value(c) {
                Some(d) => d as u64,
                None => 0,
            }
        } else {
            ((c as u32) - 48) as u64
        };
        proof {
            lemma_digits_value_step(s, i - lo, base as nat);
            assert(s[i - lo] == c);
            if base == 16 {
                assert(is_hex(c));
            }
        }
        let q = (max - d) / base;
        if acc > q {
            proof {
                assert(acc * base + d > max) by (nonlinear_arith)
                    requires
                        acc > q,
                        q == (max - d) as int / base as int,
                        base > 0,
                        d <= max,
                ;
                assert forall|k: int| 0 <= k < s.len() implies ((s[k] as u32) >= 48
                    || base == 16) by {
                    assert(s[k] == v@[lo + k]);
                }
                lemma_digits_value_monotone(s, i - lo + 1, base as nat);
            }
            return None;
        }
        proof {
            assert(acc * base + d <= max) by (nonlinear_arith)
                requires
                    acc <= q,
                    q == (max - d) as int / base as int,
                    base > 0,
                    d <= max,
            ;
        }
        acc = acc * base + d;
        i = i + 1;
    }
    assert(s.subrange(0, hi - lo) =~= s);
    Some(acc)
}


/// Unsigned parse of `v[lo..hi]` in base 10 or 16 with an optional `+`, refusing values above `max`.
fn parse_unsigned(v: &Vec<char>, lo: usize, hi: usize, base: u64, max: u64) -> (r: Option<u64>)
    requires
        lo <= hi <= v@.len(),
        base == 10 || base == 16,
        max >= 15,
    ensures
        ({
            let d = unsigned_digits(v@.subrange(lo as int, hi as int));
            let ok = d.len() > 0 && (forall|i: int| 0 <= i < d.len() ==> if base == 16 {
                is_hex(#[trigger] d[i])
            } else {
                is_digit(d[i])
            }) && digits_value(d, base as nat) <= max;
            match r {
                Some(x) => ok && x == digits_value(d, base as nat),
                None => !ok,
            }
        }),
{
    let ghost s = v@.subrange(lo as int, hi as int);
    let start = if lo < hi && v[lo] == '+' {
        lo + 1
    } else {
        lo
    };
    let ghost d = unsigned_digits(s);
    assert(d =~= v@.subrange(start as int, hi as int));
    if start >= hi {
        return None;
    }
    let mut i = start;
    while i < hi
        invariant
            start <= i <= hi <= v@.len(),
            base == 10 || base == 16,
            d == v@.subrange(start as int, hi as int),
            d == unsigned_digits(v@.subrange(lo as int, hi as int)),
            forall|k: int| start <= k < i ==> if base == 16 {
                is_hex(#[trigger] v@[k])
            } else {
                is_digit(v@[k])
            },
        decreases hi - i,
    {
        let c = v[i];
        let good = if base == 16 {
            hex_digit_value(c).is_some()
        } else {
            '0' <= c && c <= '9'
        };
        if !good {
            assert(d[i - start] == c);
            assert(!(if base == 16 {
                is_hex(d[i - start])
            } else {
                is_digit(d[i - start])
            }));
            return None;
        }
        i = i + 1;
    }
    assert forall|k: int| 0 <= k < d.len() implies if base == 16 {
        is_hex(#[trigger] d[k])
    } else {
        is_digit(d[k])
    } by {
        assert(d[k] == v@[start + k]);
    }
    digits_to_u64(v, start, hi, base, max)
}

/// `u64::from_str` on `v[lo..hi]`.
pub fn parse_u64(v: &Vec<char>, lo: usize, hi: usize) -> (r: Option<u64>)
    requires
        lo <= hi <= v@.len(),
    ensures
        r == parse_u64_spec(v@.subrange(lo as int, hi as int)),
{
    parse_unsigned(v, lo, hi, 10, u64::MAX)
}

/// `u16::from_str_radix(_, 16)` on `v[lo..hi]`.
pub fn parse_hex_u16(v: &Vec<char>, lo: usize, hi: usize) -> (r: Option<u16>)
    requires
        lo <= hi <= v@.len(),
    ensures
        r == parse_hex_u16_spec(v@.subrange(lo as int, hi as int)),
{
    match parse_unsigned(v, lo, hi, 16, 0xFFFF) {
        Some(x) => Some(x as u16),
        None => None,
    }
}

/// The character of a decimal digit.
pub fn digit_to_char(d: u64) -> (r: char)
    requires
        d < 10,
    ensures
        r == digit_char(d as nat),
{
    match d {
        0 => '0',
        1 => '1',
        2 => '2',
        3 => '3',
        4 => '4',
        5 => '5',
        6 => '6',
        7 => '7',
        8 => '8',
        _ => '9',
    }
}

/// Appends the decimal representation of `n`.
pub fn push_decimal(s: &mut String, n: u64)
    ensures
        final(s)@ == old(s)@ + decimal(n as nat),
    decreases n,
{
    if n >= 10 {
        push_decimal(s, n / 10);
    }
    s.push(digit_to_char(n % 10));
    assert(decimal(n as nat) =~= if n < 10 {
        seq![digit_char(n as nat)]
    } else {
        decimal((n / 10) as nat).push(digit_char((n % 10) as nat))
    });
}

/// Appends the decimal representation of a signed number, with `-` when negative.
pub fn push_signed_decimal(s: &mut String, n: i64)
    ensures
        final(s)@ == old(s)@ + signed_decimal(n as int),
{
    if n < 0 {
        s.push('-');
        let m: u64 = if n == i64::MIN {
            9223372036854775808u64
        } else {
            (-n) as u64
        };
        push_decimal(s, m);
        assert(seq!['-'] + decimal((-n) as nat) =~= seq!['-'].add(decimal((-n) as nat)));
        assert(final(s)@ =~= old(s)@ + signed_decimal(n as int));
    } else {
        push_decimal(s, n as u64);
    }
}

/// The decimal representation of `n` as a new string.
pub fn decimal_string(n: u64) -> (r: String)
    ensures
        r@ == decimal(n as nat),
{
    let mut s = String::new();
    push_decimal(&mut s, n);
    assert(s@ =~= decimal(n as nat));
    s
}

/// Trimming leaves nothing exactly when every character is whitespace.
pub proof fn lemma_trim_empty_iff_all_ws(s: Seq<char>)
    ensures
        (trim(s).len() == 0) <==> all_ws(s),
{
    lemma_trim_start_empty(s);
    let t = trim_start(s);
    lemma_trim_end_empty(t);
}

proof fn lemma_trim_start_empty(s: Seq<char>)
    ensures
        all_ws(s) <==> trim_start(s).len() == 0,
        trim_start(s).len() > 0 ==> !is_ws(trim_start(s)[0]),
    decreases s.len(),
{
    if s.len() > 0 && is_ws(s[0]) {
        lemma_trim_start_empty(s.drop_first());
        if all_ws(s.drop_first()) {
            assert forall|i: int| 0 <= i < s.len() implies is_ws(#[trigger] s[i]) by {
                if i > 0 {
                    assert(s[i] == s.drop_first()[i - 1]);
                }
            }
        }
        if all_ws(s) {
            assert forall|i: int| 0 <= i < s.drop_first().len() implies is_ws(
                #[trigger] s.drop_first()[i],
            ) by {
                assert(s.drop_first()[i] == s[i + 1]);
            }
        }
    } else if s.len() > 0 {
        assert(!is_ws(s[0]));
    }
}

proof fn lemma_trim_end_empty(s: Seq<char>)
    requires
        s.len() > 0 ==> !is_ws(s[0]),
    ensures
        trim_end(s).len() == 0 <==> s.len() == 0,
    decreases s.len(),
{
    if s.len() > 0 && is_ws(s.last()) {
        if s.len() == 1 {
        } else {
            lemma_trim_end_empty(s.drop_last());
        }
    }
}

} // verus!
