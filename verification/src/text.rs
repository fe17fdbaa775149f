//! Character-level text helpers: whitespace classification, trimming,
//! searching, lexicographic comparison and decimal integer parsing,
//! each verified against a spec-level definition over `Seq<char>`.

use vstd::prelude::*;

verus! {

/// The characters with the Unicode `White_Space` property, i.e. exactly
/// what `str::trim` strips.
pub open spec fn spec_is_ws(c: char) -> bool {
    ||| c == ' '
    ||| (0x09 <= c as u32 && c as u32 <= 0x0d)
    ||| c as u32 == 0x85
    ||| c as u32 == 0xa0
    ||| c as u32 == 0x1680
    ||| (0x2000 <= c as u32 && c as u32 <= 0x200a)
    ||| c as u32 == 0x2028
    ||| c as u32 == 0x2029
    ||| c as u32 == 0x202f
    ||| c as u32 == 0x205f
    ||| c as u32 == 0x3000
}

/// Whitespace test on a single character.
pub fn is_ws(c: char) -> (r: bool)
    ensures
        r == spec_is_ws(c),
{
    let u = c as u32;
    u == 0x20 || (0x09 <= u && u <= 0x0d) || u == 0x85 || u == 0xa0 || u == 0x1680
        || (0x2000 <= u && u <= 0x200a) || u == 0x2028 || u == 0x2029 || u == 0x202f
        || u == 0x205f || u == 0x3000
}

/// The sequence with leading whitespace removed.
pub open spec fn spec_trim_start(s: Seq<char>) -> Seq<char>
    decreases s.len(),
{
    if s.len() > 0 && spec_is_ws(s[0]) {
        spec_trim_start(s.subrange(1, s.len() as int))
    } else {
        s
    }
}

/// The sequence with trailing whitespace removed.
pub open spec fn spec_trim_end(s: Seq<char>) -> Seq<char>
    decreases s.len(),
{
    if s.len() > 0 && spec_is_ws(s[s.len() - 1]) {
        spec_trim_end(s.subrange(0, s.len() - 1))
    } else {
        s
    }
}

/// The sequence with whitespace removed at both ends.
pub open spec fn spec_trim(s: Seq<char>) -> Seq<char> {
    spec_trim_start(spec_trim_end(s))
}

/// Trimming the start keeps a suffix of the sequence.
pub proof fn lemma_trim_start_is_suffix(s: Seq<char>)
    ensures
        spec_trim_start(s).len() <= s.len(),
        spec_trim_start(s) == s.subrange(
            s.len() - spec_trim_start(s).len(),
            s.len() as int,
        ),
        forall|k: int|
            0 <= k < s.len() - spec_trim_start(s).len() ==> spec_is_ws(s[k]),
        spec_trim_start(s).len() > 0 ==> !spec_is_ws(spec_trim_start(s)[0]),
    decreases s.len(),
{
    if s.len() > 0 && spec_is_ws(s[0]) {
        let rest = s.subrange(1, s.len() as int);
        lemma_trim_start_is_suffix(rest);
        assert(rest.subrange(
            rest.len() - spec_trim_start(rest).len(),
            rest.len() as int,
        ) =~= s.subrange(s.len() - spec_trim_start(s).len(), s.len() as int));
        assert forall|k: int|
            0 <= k < s.len() - spec_trim_start(s).len() implies spec_is_ws(s[k]) by {
            if k > 0 {
                assert(s[k] == rest[k - 1]);
            }
        }
    }
}

/// Trimming the end keeps a prefix of the sequence.
pub proof fn lemma_trim_end_is_prefix(s: Seq<char>)
    ensures
        spec_trim_end(s).len() <= s.len(),
        spec_trim_end(s) == s.subrange(0, spec_trim_end(s).len() as int),
        forall|k: int| spec_trim_end(s).len() <= k < s.len() ==> spec_is_ws(s[k]),
    decreases s.len(),
{
    if s.len() > 0 && spec_is_ws(s[s.len() - 1]) {
        let rest = s.subrange(0, s.len() - 1);
        lemma_trim_end_is_prefix(rest);
        assert(rest.subrange(0, spec_trim_end(rest).len() as int) =~= s.subrange(
            0,
            spec_trim_end(s).len() as int,
        ));
        assert forall|k: int| spec_trim_end(s).len() <= k < s.len() implies spec_is_ws(
            s[k],
        ) by {
            if k < s.len() - 1 {
                assert(s[k] == rest[k]);
            }
        }
    }
}

/// A sequence whose first and last characters are not whitespace is
/// already trimmed.
pub proof fn lemma_trim_of_trimmed(s: Seq<char>)
    requires
        s.len() == 0 || (!spec_is_ws(s[0]) && !spec_is_ws(s[s.len() - 1])),
    ensures
        spec_trim(s) == s,
        spec_trim_start(s) == s,
        spec_trim_end(s) == s,
{
}

/// Removes trailing whitespace; the result is a prefix of the input.
pub fn str_trim_end<'a>(s: &'a str) -> (r: &'a str)
    ensures
        r@ == spec_trim_end(s@),
{
    let n = s.unicode_len();
    let mut j: usize = n;
    proof {
        assert(s@.subrange(0, n as int) =~= s@);
    }
    while j > 0 && is_ws(s.get_char(j - 1))
        invariant
            j <= n,
            n == s@.len(),
            spec_trim_end(s@) == spec_trim_end(s@.subrange(0, j as int)),
        decreases j,
    {
        proof {
            assert(s@.subrange(0, j as int).subrange(0, j - 1) =~= s@.subrange(
                0,
                j - 1,
            ));
        }
        j = j - 1;
    }
    proof {
        if j == 0 {
            assert(s@.subrange(0, 0) =~= Seq::<char>::empty());
        }
        assert(spec_trim_end(s@.subrange(0, j as int)) == s@.subrange(0, j as int));
    }
    s.substring_char(0, j)
}

/// Removes leading whitespace; the result is a suffix of the input.
pub fn str_trim_start<'a>(s: &'a str) -> (r: &'a str)
    ensures
        r@ == spec_trim_start(s@),
{
    let n = s.unicode_len();
    let mut i: usize = 0;
    proof {
        assert(s@.subrange(0, n as int) =~= s@);
    }
    while i < n && is_ws(s.get_char(i))
        invariant
            i <= n,
            n == s@.len(),
            spec_trim_start(s@) == spec_trim_start(s@.subrange(i as int, n as int)),
        decreases n - i,
    {
        proof {
            assert(s@.subrange(i as int, n as int).subrange(
                1,
                s@.subrange(i as int, n as int).len() as int,
            ) =~= s@.subrange(i + 1, n as int));
        }
        i = i + 1;
    }
    proof {
        if i == n {
            assert(s@.subrange(n as int, n as int) =~= Seq::<char>::empty());
        }
        assert(spec_trim_start(s@.subrange(i as int, n as int)) == s@.subrange(
            i as int,
            n as int,
        ));
    }
    s.substring_char(i, n)
}

/// Removes whitespace at both ends.
pub fn str_trim<'a>(s: &'a str) -> (r: &'a str)
    ensures
        r@ == spec_trim(s@),
{
    str_trim_start(str_trim_end(s))
}

} // verus!

verus! {

/// Index of the first occurrence of `c` in `s`, or `s.len()` if absent.
pub open spec fn spec_find(s: Seq<char>, c: char) -> int
    decreases s.len(),
{
    if s.len() == 0 {
        0
    } else if s[0] == c {
        0
    } else {
        1 + spec_find(s.subrange(1, s.len() as int), c)
    }
}

/// `spec_find` is the unique index satisfying the usual first-occurrence
/// characterization.
pub proof fn lemma_find_at(s: Seq<char>, c: char, i: int)
    requires
        0 <= i <= s.len(),
        forall|k: int| 0 <= k < i ==> s[k] != c,
        i < s.len() ==> s[i] == c,
    ensures
        spec_find(s, c) == i,
    decreases i,
{
    if s.len() == 0 {
    } else if s[0] == c {
        assert(i == 0);
    } else {
        let rest = s.subrange(1, s.len() as int);
        assert(i >= 1);
        assert(forall|k: int| 0 <= k < i - 1 ==> rest[k] != c);
        lemma_find_at(rest, c, i - 1);
    }
}

/// Basic bounds and hit properties of `spec_find`.
pub proof fn lemma_find_props(s: Seq<char>, c: char)
    ensures
        0 <= spec_find(s, c) <= s.len(),
        spec_find(s, c) < s.len() ==> s[spec_find(s, c)] == c,
        forall|k: int| 0 <= k < spec_find(s, c) ==> s[k] != c,
    decreases s.len(),
{
    if s.len() == 0 {
    } else if s[0] == c {
    } else {
        let rest = s.subrange(1, s.len() as int);
        lemma_find_props(rest, c);
        assert forall|k: int| 0 <= k < spec_find(s, c) implies s[k] != c by {
            if k > 0 {
                assert(s[k] == rest[k - 1]);
            }
        }
    }
}

/// First occurrence of `c` in `s` at or after `from`.
pub fn str_find_from(s: &str, from: usize, c: char) -> (r: Option<usize>)
    requires
        from <= s@.len(),
    ensures
        ({
            let sub = s@.subrange(from as int, s@.len() as int);
            match r {
                Some(i) => from <= i < s@.len() && spec_find(sub, c) == i - from && s@[i as int]
                    == c,
                None => spec_find(sub, c) == sub.len(),
            }
        }),
{
    let ghost sub = s@.subrange(from as int, s@.len() as int);
    let n = s.unicode_len();
    let mut i: usize = from;
    while i < n
        invariant
            from <= i <= n,
            n == s@.len(),
            sub == s@.subrange(from as int, s@.len() as int),
            forall|k: int| from <= k < i ==> s@[k] != c,
        decreases n - i,
    {
        if s.get_char(i) == c {
            proof {
                assert(forall|k: int| 0 <= k < i - from ==> sub[k] != c);
                lemma_find_at(sub, c, i - from);
            }
            return Some(i);
        }
        i = i + 1;
    }
    proof {
        assert(forall|k: int| 0 <= k < sub.len() ==> sub[k] != c);
        lemma_find_at(sub, c, sub.len() as int);
    }
    None
}

/// Strict lexicographic order on character sequences, by Unicode scalar
/// value; matches the ordering of Rust strings.
pub open spec fn lex_lt(a: Seq<char>, b: Seq<char>) -> bool
    decreases a.len(),
{
    if b.len() == 0 {
        false
    } else if a.len() == 0 {
        true
    } else if a[0] == b[0] {
        lex_lt(a.subrange(1, a.len() as int), b.subrange(1, b.len() as int))
    } else {
        (a[0] as u32) < (b[0] as u32)
    }
}

/// How `lex_lt` and equality are decided at the first index where the two
/// sequences can differ.
pub proof fn lemma_lex_at(a: Seq<char>, b: Seq<char>, i: int)
    requires
        0 <= i <= a.len(),
        i <= b.len(),
        forall|k: int| 0 <= k < i ==> a[k] == b[k],
    ensures
        (i == a.len() && i == b.len()) ==> (a == b && !lex_lt(a, b) && !lex_lt(b, a)),
        (i == a.len() && i < b.len()) ==> (lex_lt(a, b) && !lex_lt(b, a) && a != b),
        (i == b.len() && i < a.len()) ==> (lex_lt(b, a) && !lex_lt(a, b) && a != b),
        (i < a.len() && i < b.len() && a[i] != b[i]) ==> (a != b && (lex_lt(a, b) <==> (
        a[i] as u32) < (b[i] as u32)) && (lex_lt(b, a) <==> (b[i] as u32) < (a[i] as u32))
            && (lex_lt(a, b) <==> !lex_lt(b, a))),
    decreases i,
{
    if i == 0 {
        if a.len() == 0 && b.len() == 0 {
            assert(a =~= b);
        }
        if 0 < a.len() && 0 < b.len() && a[0] != b[0] {
            assert((a[0] as u32) != (b[0] as u32)) by {
                vstd::utf8::char_u32_cast(a[0], a[0] as u32);
                vstd::utf8::char_u32_cast(b[0], b[0] as u32);
            }
        }
    } else {
        let a1 = a.subrange(1, a.len() as int);
        let b1 = b.subrange(1, b.len() as int);
        assert(forall|k: int| 0 <= k < i - 1 ==> a1[k] == b1[k]);
        lemma_lex_at(a1, b1, i - 1);
        if i - 1 < a1.len() && i - 1 < b1.len() {
            assert(a1[i - 1] == a[i]);
            assert(b1[i - 1] == b[i]);
        }
        if a1 == b1 && a.len() == b.len() {
            assert forall|k: int| 0 <= k < a.len() implies a[k] == b[k] by {
                if k > 0 {
                    assert(a[k] == a1[k - 1]);
                    assert(b[k] == b1[k - 1]);
                }
            }
            assert(a =~= b);
        }
        if a == b {
            assert(a1 =~= b1);
        }
    }
}

/// `lex_lt` is transitive.
pub proof fn lemma_lex_transitive(a: Seq<char>, b: Seq<char>, c: Seq<char>)
    requires
        lex_lt(a, b),
        lex_lt(b, c),
    ensures
        lex_lt(a, c),
    decreases a.len() + b.len() + c.len(),
{
    if c.len() == 0 {
    } else if a.len() == 0 {
    } else if b.len() == 0 {
    } else {
        if a[0] == b[0] && b[0] == c[0] {
            lemma_lex_transitive(
                a.subrange(1, a.len() as int),
                b.subrange(1, b.len() as int),
                c.subrange(1, c.len() as int),
            );
        }
    }
}

/// Three-way comparison of two strings in `lex_lt` order.
pub fn str_compare(a: &str, b: &str) -> (r: i8)
    ensures
        (r == 0) <==> (a@ == b@),
        (r < 0) <==> lex_lt(a@, b@),
        (r > 0) <==> lex_lt(b@, a@),
{
    let na = a.unicode_len();
    let nb = b.unicode_len();
    let mut i: usize = 0;
    while i < na && i < nb
        invariant
            i <= na,
            i <= nb,
            na == a@.len(),
            nb == b@.len(),
            forall|k: int| 0 <= k < i ==> a@[k] == b@[k],
        decreases na - i,
    {
        let ca = a.get_char(i);
        let cb = b.get_char(i);
        if ca != cb {
            proof {
                lemma_lex_at(a@, b@, i as int);
            }
            if (ca as u32) < (cb as u32) {
                return -1;
            } else {
                return 1;
            }
        }
        i = i + 1;
    }
    proof {
        lemma_lex_at(a@, b@, i as int);
    }
    if na == nb {
        0
    } else if na < nb {
        -1
    } else {
        1
    }
}

/// Equality of two strings as character sequences.
pub fn str_eq(a: &str, b: &str) -> (r: bool)
    ensures
        r == (a@ == b@),
{
    str_compare(a, b) == 0
}

/// `s` begins with three copies of the quote character `q`.
pub open spec fn spec_starts_marker(s: Seq<char>, q: char) -> bool {
    s.len() >= 3 && s[0] == q && s[1] == q && s[2] == q
}

/// `s` ends with three copies of the quote character `q`.
pub open spec fn spec_ends_marker(s: Seq<char>, q: char) -> bool {
    s.len() >= 3 && s[s.len() - 3] == q && s[s.len() - 2] == q && s[s.len() - 1] == q
}

/// Tests for a leading triple-quote marker.
pub fn starts_with_marker(s: &str, q: char) -> (r: bool)
    ensures
        r == spec_starts_marker(s@, q),
{
    let n = s.unicode_len();
    n >= 3 && s.get_char(0) == q && s.get_char(1) == q && s.get_char(2) == q
}

/// Tests for a trailing triple-quote marker.
pub fn ends_with_marker(s: &str, q: char) -> (r: bool)
    ensures
        r == spec_ends_marker(s@, q),
{
    let n = s.unicode_len();
    n >= 3 && s.get_char(n - 3) == q && s.get_char(n - 2) == q && s.get_char(n - 1) == q
}

} // verus!

verus! {

/// Decimal digit test.
pub open spec fn spec_is_digit(c: char) -> bool {
    0x30 <= c as u32 && c as u32 <= 0x39
}

/// Numeric value of a decimal digit character.
pub open spec fn spec_digit_val(c: char) -> int {
    c as u32 - 0x30
}

/// Value of a sequence of decimal digits, most significant first.
pub open spec fn spec_digits_value(s: Seq<char>) -> int
    decreases s.len(),
{
    if s.len() == 0 {
        0
    } else {
        spec_digits_value(s.drop_last()) * 10 + spec_digit_val(s.last())
    }
}

/// Every character of `s` is a decimal digit.
pub open spec fn spec_all_digits(s: Seq<char>) -> bool {
    forall|i: int| 0 <= i < s.len() ==> spec_is_digit(s[i])
}

/// The integer denoted by an optionally signed decimal numeral, or `None`
/// if `s` is not one; mirrors what `str::parse` accepts for integers.
pub open spec fn spec_int_of_decimal(s: Seq<char>) -> Option<int> {
    if s.len() > 0 && (s[0] == '+' || s[0] == '-') {
        let d = s.subrange(1, s.len() as int);
        if d.len() > 0 && spec_all_digits(d) {
            if s[0] == '-' {
                Some(-spec_digits_value(d))
            } else {
                Some(spec_digits_value(d))
            }
        } else {
            None
        }
    } else if s.len() > 0 && spec_all_digits(s) {
        Some(spec_digits_value(s))
    } else {
        None
    }
}

/// The `i32` denoted by `s`, or `None` when `s` is malformed or the value
/// does not fit.
pub open spec fn spec_parse_i32(s: Seq<char>) -> Option<i32> {
    match spec_int_of_decimal(s) {
        Some(v) => if -0x8000_0000 <= v && v <= 0x7fff_ffff {
            Some(v as i32)
        } else {
            None
        },
        None => None,
    }
}

/// A digit sequence has a non-negative value.
pub proof fn lemma_digits_value_nonneg(s: Seq<char>)
    requires
        spec_all_digits(s),
    ensures
        spec_digits_value(s) >= 0,
    decreases s.len(),
{
    if s.len() > 0 {
        lemma_digits_value_nonneg(s.drop_last());
    }
}

/// Reads the digit run `s[from..n]`; yields its magnitude, capped so that
/// any overflowing value is still recognized as out of range.
fn read_digits(s: &str, from: usize, n: usize) -> (r: Option<u64>)
    requires
        from <= n,
        n == s@.len(),
    ensures
        ({
            let d = s@.subrange(from as int, n as int);
            match r {
                Some(acc) => d.len() > 0 && spec_all_digits(d) && (spec_digits_value(d)
                    < 0x2_0000_0000 ==> acc == spec_digits_value(d)) && (spec_digits_value(d)
                    >= 0x2_0000_0000 ==> acc >= 0x2_0000_0000),
                None => !(d.len() > 0 && spec_all_digits(d)),
            }
        }),
{
    let ghost d = s@.subrange(from as int, n as int);
    if from == n {
        return None;
    }
    let mut acc: u64 = 0;
    let mut i: usize = from;
    while i < n
        invariant
            from <= i <= n,
            n == s@.len(),
            d == s@.subrange(from as int, n as int),
            spec_all_digits(s@.subrange(from as int, i as int)),
            acc < 0x20_0000_0000,
            spec_digits_value(s@.subrange(from as int, i as int)) < 0x2_0000_0000 ==> acc
                == spec_digits_value(s@.subrange(from as int, i as int)),
            spec_digits_value(s@.subrange(from as int, i as int)) >= 0x2_0000_0000 ==> acc
                >= 0x2_0000_0000,
        decreases n - i,
    {
        let c = s.get_char(i);
        let u = c as u32;
        if !(0x30 <= u && u <= 0x39) {
            proof {
                assert(!spec_is_digit(d[i - from]));
            }
            return None;
        }
        let dv = (u - 0x30) as u64;
        proof {
            let pre = s@.subrange(from as int, i as int);
            let post = s@.subrange(from as int, i + 1);
            assert(post.drop_last() =~= pre);
            assert(post.last() == s@[i as int]);
            lemma_digits_value_nonneg(pre);
        }
        if acc >= 0x2_0000_0000 {
            // already beyond any value an i32 can hold; keep the cap
        } else {
            acc = acc * 10 + dv;
        }
        i = i + 1;
    }
    proof {
        assert(d =~= s@.subrange(from as int, n as int));
    }
    Some(acc)
}

/// Parses an optionally signed decimal `i32`, exactly as `str::parse`
/// does: `None` on an empty or malformed numeral or one out of range.
pub fn parse_i32(s: &str) -> (r: Option<i32>)
    ensures
        r == spec_parse_i32(s@),
{
    let n = s.unicode_len();
    let mut neg = false;
    let mut off: usize = 0;
    if n > 0 {
        let c0 = s.get_char(0);
        if c0 == '-' {
            neg = true;
            off = 1;
        } else if c0 == '+' {
            off = 1;
        }
    }
    if n == 0 {
        return None;
    }
    let mag = read_digits(s, off, n);
    proof {
        if off == 0 {
            assert(s@.subrange(0, n as int) =~= s@);
        }
    }
    match mag {
        None => None,
        Some(acc) => {
            proof {
                lemma_digits_value_nonneg(s@.subrange(off as int, n as int));
            }
            if neg {
                if acc > 0x8000_0000 {
                    None
                } else if acc == 0x8000_0000 {
                    Some(i32::MIN)
                } else {
                    Some(-(acc as i32))
                }
            } else {
                if acc > 0x7fff_ffff {
                    None
                } else {
                    Some(acc as i32)
                }
            }
        },
    }
}

/// The character for a decimal digit value.
pub open spec fn spec_digit_char(d: int) -> char {
    if d == 0 {
        '0'
    } else if d == 1 {
        '1'
    } else if d == 2 {
        '2'
    } else if d == 3 {
        '3'
    } else if d == 4 {
        '4'
    } else if d == 5 {
        '5'
    } else if d == 6 {
        '6'
    } else if d == 7 {
        '7'
    } else if d == 8 {
        '8'
    } else {
        '9'
    }
}

/// The decimal numeral for a non-negative integer, no sign and no
/// leading zeroes.
pub open spec fn spec_decimal_string(n: int) -> Seq<char>
    decreases n,
{
    if n < 10 {
        seq![spec_digit_char(n)]
    } else {
        spec_decimal_string(n / 10).push(spec_digit_char(n % 10))
    }
}

/// One decimal digit as a string slice.
fn digit_str(d: u64) -> (r: &'static str)
    requires
        d < 10,
    ensures
        r@ =~= seq![spec_digit_char(d as int)],
{
    proof {
        reveal_strlit("0");
        reveal_strlit("1");
        reveal_strlit("2");
        reveal_strlit("3");
        reveal_strlit("4");
        reveal_strlit("5");
        reveal_strlit("6");
        reveal_strlit("7");
        reveal_strlit("8");
        reveal_strlit("9");
    }
    if d == 0 {
        "0"
    } else if d == 1 {
        "1"
    } else if d == 2 {
        "2"
    } else if d == 3 {
        "3"
    } else if d == 4 {
        "4"
    } else if d == 5 {
        "5"
    } else if d == 6 {
        "6"
    } else if d == 7 {
        "7"
    } else if d == 8 {
        "8"
    } else {
        "9"
    }
}

/// Renders a non-negative integer in decimal.
pub fn decimal_string(n: u64) -> (r: String)
    ensures
        r@ == spec_decimal_string(n as int),
    decreases n,
{
    if n < 10 {
        String::from_str(digit_str(n))
    } else {
        let mut s = decimal_string(n / 10);
        s.append(digit_str(n % 10));
        proof {
            assert(s@ =~= spec_decimal_string((n / 10) as int).push(
                spec_digit_char((n % 10) as int),
            ));
        }
        s
    }
}

} // verus!

verus! {

/// Any two character sequences are equal or ordered by `lex_lt`.
pub proof fn lemma_lex_total(a: Seq<char>, b: Seq<char>)
    ensures
        a == b || lex_lt(a, b) || lex_lt(b, a),
    decreases a.len(),
{
    if b.len() == 0 {
        if a.len() == 0 {
            assert(a =~= b);
        }
    } else if a.len() == 0 {
    } else if a[0] == b[0] {
        let a1 = a.subrange(1, a.len() as int);
        let b1 = b.subrange(1, b.len() as int);
        lemma_lex_total(a1, b1);
        if a1 == b1 {
            assert forall|k: int| 0 <= k < a.len() implies a[k] == b[k] by {
                if k > 0 {
                    assert(a[k] == a1[k - 1]);
                    assert(b[k] == b1[k - 1]);
                }
            }
            assert(a =~= b);
        }
    } else {
        assert((a[0] as u32) != (b[0] as u32)) by {
            vstd::utf8::char_u32_cast(a[0], a[0] as u32);
            vstd::utf8::char_u32_cast(b[0], b[0] as u32);
        }
    }
}

} // verus!
