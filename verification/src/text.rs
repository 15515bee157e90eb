//! Character-level building blocks: the mathematical meaning of the textual
//! formats the library reads and writes, and verified routines over them.
use vstd::prelude::*;

verus! {

// ---------------------------------------------------------------------------
// Digits and unsigned numbers
// ---------------------------------------------------------------------------

/// The value of `c` as a digit in `radix` (at most 36), as `char::to_digit` defines it.
pub open spec fn digit_value(c: char, radix: nat) -> Option<nat> {
    let v: int = if '0' <= c && c <= '9' {
        c as int - '0' as int
    } else if 'a' <= c && c <= 'z' {
        c as int - 'a' as int + 10
    } else if 'A' <= c && c <= 'Z' {
        c as int - 'A' as int + 10
    } else {
        radix as int
    };
    if v < radix {
        Some(v as nat)
    } else {
        None
    }
}

/// The value of a string of digits, most significant first; `None` if a character is no digit.
pub open spec fn digits_value(s: Seq<char>, radix: nat) -> Option<nat>
    decreases s.len(),
{
    if s.len() == 0 {
        Some(0)
    } else {
        match (digits_value(s.drop_last(), radix), digit_value(s.last(), radix)) {
            (Some(h), Some(d)) => Some(h * radix + d),
            _ => None,
        }
    }
}

/// What std's `from_str_radix` gives for an unsigned integer type whose largest value is `max`:
/// an optional leading `+`, then one or more digits, and a value that fits.
pub open spec fn parse_unsigned_spec(s: Seq<char>, radix: nat, max: nat) -> Option<nat> {
    if s.len() == 0 {
        None
    } else {
        let digits = if s[0] == '+' {
            s.drop_first()
        } else {
            s
        };
        if digits.len() == 0 {
            None
        } else {
            match digits_value(digits, radix) {
                Some(v) => if v <= max {
                    Some(v)
                } else {
                    None
                },
                None => None,
            }
        }
    }
}

/// A value read off a prefix never exceeds the value of the whole digit string.
proof fn lemma_digits_value_prefix(s: Seq<char>, radix: nat, k: int)
    requires
        0 <= k <= s.len(),
        radix >= 1,
        digits_value(s, radix) is Some,
    ensures
        digits_value(s.take(k), radix) is Some,
        digits_value(s.take(k), radix).unwrap() <= digits_value(s, radix).unwrap(),
    decreases s.len(),
{
    if k == s.len() {
        assert(s.take(k) =~= s);
    } else {
        let h = digits_value(s.drop_last(), radix).unwrap();
        let d = digit_value(s.last(), radix).unwrap();
        assert(h <= h * radix + d) by (nonlinear_arith)
            requires
                radix >= 1,
        ;
        lemma_digits_value_prefix(s.drop_last(), radix, k);
        assert(s.drop_last().take(k) =~= s.take(k));
    }
}

/// A string with a character that is no digit has no value.
proof fn lemma_digits_value_bad_digit(s: Seq<char>, radix: nat, k: int)
    requires
        0 <= k < s.len(),
        digit_value(s[k], radix) is None,
    ensures
        digits_value(s, radix) is None,
    decreases s.len(),
{
    if k < s.len() - 1 {
        lemma_digits_value_bad_digit(s.drop_last(), radix, k);
    }
}

/// The value of `c` as a digit in `radix`, for a radix of at most 36.
pub fn char_digit(c: char, radix: u32) -> (r: Option<u32>)
    requires
        2 <= radix <= 36,
    ensures
        match r {
            Some(v) => digit_value(c, radix as nat) == Some(v as nat),
            None => digit_value(c, radix as nat) is None,
        },
{
    let v: u32 = if '0' <= c && c <= '9' {
        (c as u32) - ('0' as u32)
    } else if 'a' <= c && c <= 'z' {
        (c as u32) - ('a' as u32) + 10
    } else if 'A' <= c && c <= 'Z' {
        (c as u32) - ('A' as u32) + 10
    } else {
        radix
    };
    if v < radix {
        Some(v)
    } else {
        None
    }
}

/// Reads an unsigned number from `s` as std's `from_str_radix` does for a type whose
/// largest value is `max`.
pub fn parse_unsigned(s: &Vec<char>, radix: u32, max: u64) -> (r: Option<u64>)
    requires
        2 <= radix <= 36,
    ensures
        match r {
            Some(v) => parse_unsigned_spec(s@, radix as nat, max as nat) == Some(v as nat),
            None => parse_unsigned_spec(s@, radix as nat, max as nat) is None,
        },
{
    if s.len() == 0 {
        return None;
    }
    let start: usize = if s[0] == '+' {
        1
    } else {
        0
    };
    let ghost digits = if s@[0] == '+' {
        s@.drop_first()
    } else {
        s@
    };
    assert(digits =~= s@.subrange(start as int, s@.len() as int));
    if start == s.len() {
        return None;
    }
    let mut acc: u64 = 0;
    let mut i: usize = start;
    assert(s@.subrange(start as int, i as int) =~= Seq::<char>::empty());
    while i < s.len()
        invariant
            start <= i <= s.len(),
            2 <= radix <= 36,
            s@.len() > 0,
            digits == (if s@[0] == '+' {
                s@.drop_first()
            } else {
                s@
            }),
            digits.len() > 0,
            digits =~= s@.subrange(start as int, s@.len() as int),
            digits_value(s@.subrange(start as int, i as int), radix as nat) == Some(acc as nat),
            acc <= max,
        decreases s.len() - i,
    {
        let ghost prefix = s@.subrange(start as int, i as int);
        let ghost next_prefix = s@.subrange(start as int, i + 1);
        assert(next_prefix.drop_last() =~= prefix);
        assert(next_prefix.last() == s@[i as int]);
        let d = char_digit(s[i], radix);
        match d {
            None => {
                proof {
                    lemma_digits_value_bad_digit(digits, radix as nat, i - start);
                }
                return None;
            },
            Some(d) => {
                assert((acc as nat) * (radix as nat) <= (u64::MAX as nat) * 36) by (nonlinear_arith)
                    requires
                        acc <= u64::MAX,
                        radix <= 36,
                ;
                let next: u128 = (acc as u128) * (radix as u128) + (d as u128);
                if next > max as u128 {
                    proof {
                        if digits_value(digits, radix as nat) is Some {
                            lemma_digits_value_prefix(digits, radix as nat, i - start + 1);
                            assert(digits.take(i - start + 1) =~= next_prefix);
                        }
                    }
                    return None;
                }
                acc = next as u64;
            },
        }
        i = i + 1;
    }
    assert(s@.subrange(start as int, i as int) =~= digits);
    Some(acc)
}

// ---------------------------------------------------------------------------
// Splitting at a separator
// ---------------------------------------------------------------------------

/// The pieces of `s` between occurrences of `sep`, as std's `str::split` with a `char` gives them.
pub open spec fn split_on(s: Seq<char>, sep: char) -> Seq<Seq<char>>
    decreases s.len(),
{
    if s.len() == 0 {
        seq![Seq::<char>::empty()]
    } else {
        let rest = split_on(s.drop_last(), sep);
        if s.last() == sep {
            rest.push(Seq::<char>::empty())
        } else {
            rest.update(rest.len() - 1, rest.last().push(s.last()))
        }
    }
}

pub proof fn lemma_split_on_nonempty(s: Seq<char>, sep: char)
    ensures
        split_on(s, sep).len() >= 1,
    decreases s.len(),
{
    if s.len() > 0 {
        lemma_split_on_nonempty(s.drop_last(), sep);
    }
}

/// A string without the separator is one piece.
pub proof fn lemma_split_on_no_sep(s: Seq<char>, sep: char)
    requires
        !s.contains(sep),
    ensures
        split_on(s, sep) =~= seq![s],
    decreases s.len(),
{
    if s.len() > 0 {
        assert(!s.drop_last().contains(sep)) by {
            if s.drop_last().contains(sep) {
                let j = choose|j: int| 0 <= j < s.drop_last().len() && s.drop_last()[j] == sep;
                assert(s[j] == sep);
            }
        }
        lemma_split_on_no_sep(s.drop_last(), sep);
        assert(s.last() != sep) by {
            assert(s[s.len() - 1] == s.last());
        }
        let rest = split_on(s.drop_last(), sep);
        assert(rest.len() == 1);
        assert(rest.last() == s.drop_last());
        assert(s.drop_last().push(s.last()) =~= s);
        assert(split_on(s, sep) == rest.update(0, s));
    } else {
        assert(s =~= Seq::<char>::empty());
    }
}

/// Splitting at a separator that joins two strings splits each of them.
pub proof fn lemma_split_on_concat(x: Seq<char>, y: Seq<char>, sep: char)
    ensures
        split_on(x + seq![sep] + y, sep) =~= split_on(x, sep) + split_on(y, sep),
    decreases y.len(),
{
    let z = x + seq![sep] + y;
    if y.len() == 0 {
        assert(z.drop_last() =~= x);
        assert(z.last() == sep);
    } else {
        assert(z.drop_last() =~= x + seq![sep] + y.drop_last());
        assert(z.last() == y.last());
        lemma_split_on_concat(x, y.drop_last(), sep);
        lemma_split_on_nonempty(y.drop_last(), sep);
        lemma_split_on_nonempty(x, sep);
    }
}

/// Splits `s` at every `sep`, keeping empty pieces, as `str::split` with a `char` does.
pub fn split_chars(s: &Vec<char>, sep: char) -> (pieces: Vec<Vec<char>>)
    ensures
        pieces@.len() == split_on(s@, sep).len(),
        forall|i: int| 0 <= i < pieces@.len() ==> #[trigger] pieces@[i]@ == split_on(s@, sep)[i],
{
    let mut pieces: Vec<Vec<char>> = Vec::new();
    let mut cur: Vec<char> = Vec::new();
    let mut i: usize = 0;
    assert(s@.take(0) =~= Seq::<char>::empty());
    while i < s.len()
        invariant
            i <= s.len(),
            pieces@.len() + 1 == split_on(s@.take(i as int), sep).len(),
            forall|j: int|
                0 <= j < pieces@.len() ==> #[trigger] pieces@[j]@ == split_on(
                    s@.take(i as int),
                    sep,
                )[j],
            cur@ == split_on(s@.take(i as int), sep).last(),
        decreases s.len() - i,
    {
        assert(s@.take(i + 1).drop_last() =~= s@.take(i as int));
        assert(s@.take(i + 1).last() == s@[i as int]);
        proof {
            lemma_split_on_nonempty(s@.take(i as int), sep);
        }
        if s[i] == sep {
            pieces.push(cur);
            cur = Vec::new();
        } else {
            cur.push(s[i]);
        }
        i = i + 1;
    }
    assert(s@.take(s@.len() as int) =~= s@);
    pieces.push(cur);
    pieces
}

// ---------------------------------------------------------------------------
// Reading and writing strings
// ---------------------------------------------------------------------------

/// Appends one character to a string (std's `String::push`).
#[verifier::external_body]
pub fn push_char(s: &mut String, c: char)
    ensures
        final(s)@ == old(s)@.push(c),
{
    s.push(c);
}

/// The characters of `s`, in order.
pub fn chars_of(s: &str) -> (v: Vec<char>)
    ensures
        v@ == s@,
{
    let mut v: Vec<char> = Vec::new();
    for c in it: s.chars()
        invariant
            v@ == it.seq().take(it.index() as int),
    {
        v.push(c);
    }
    v
}

/// A string holding the characters of `v`.
pub fn string_of(v: &Vec<char>) -> (s: String)
    ensures
        s@ == v@,
{
    let mut s = String::new();
    let mut i: usize = 0;
    while i < v.len()
        invariant
            i <= v.len(),
            s@ == v@.take(i as int),
        decreases v.len() - i,
    {
        assert(v@.take(i + 1) =~= v@.take(i as int).push(v@[i as int]));
        push_char(&mut s, v[i]);
        i = i + 1;
    }
    assert(v@.take(v@.len() as int) =~= v@);
    s
}

/// Appends the characters of `v` to `s`.
pub fn push_chars(s: &mut String, v: &Vec<char>)
    ensures
        final(s)@ == old(s)@ + v@,
{
    let mut i: usize = 0;
    while i < v.len()
        invariant
            i <= v.len(),
            s@ == old(s)@ + v@.take(i as int),
        decreases v.len() - i,
    {
        assert(v@.take(i + 1) =~= v@.take(i as int).push(v@[i as int]));
        push_char(s, v[i]);
        i = i + 1;
    }
    assert(v@.take(v@.len() as int) =~= v@);
}

/// Whether `s` begins with `prefix`.
pub open spec fn has_prefix(s: Seq<char>, prefix: Seq<char>) -> bool {
    prefix.len() <= s.len() && s.take(prefix.len() as int) == prefix
}

/// What std's `str::strip_prefix` gives.
pub open spec fn strip_prefix_spec(s: Seq<char>, prefix: Seq<char>) -> Option<Seq<char>> {
    if has_prefix(s, prefix) {
        Some(s.skip(prefix.len() as int))
    } else {
        None
    }
}

/// The characters of `s` after `prefix`, if `s` begins with it.
pub fn strip_prefix_chars(s: &Vec<char>, prefix: &Vec<char>) -> (r: Option<Vec<char>>)
    ensures
        match r {
            Some(rest) => strip_prefix_spec(s@, prefix@) == Some(rest@),
            None => strip_prefix_spec(s@, prefix@) is None,
        },
{
    if prefix.len() > s.len() {
        return None;
    }
    let mut i: usize = 0;
    while i < prefix.len()
        invariant
            i <= prefix.len() <= s.len(),
            forall|j: int| 0 <= j < i ==> s@[j] == prefix@[j],
        decreases prefix.len() - i,
    {
        if s[i] != prefix[i] {
            assert(s@.take(prefix@.len() as int)[i as int] != prefix@[i as int]);
            return None;
        }
        i = i + 1;
    }
    assert(s@.take(prefix@.len() as int) =~= prefix@);
    let mut rest: Vec<char> = Vec::new();
    let mut k: usize = prefix.len();
    while k < s.len()
        invariant
            prefix.len() <= k <= s.len(),
            rest@ =~= s@.subrange(prefix@.len() as int, k as int),
        decreases s.len() - k,
    {
        rest.push(s[k]);
        k = k + 1;
    }
    Some(rest)
}

/// Appends the characters of `t` to `s`.
pub fn push_str(s: &mut String, t: &str)
    ensures
        final(s)@ == old(s)@ + t@,
{
    let v = chars_of(t);
    push_chars(s, &v);
}

/// Whether two strings hold the same characters.
pub fn same_text(a: &str, b: &str) -> (r: bool)
    ensures
        r == (a@ == b@),
{
    let x = chars_of(a);
    let y = chars_of(b);
    if x.len() != y.len() {
        return false;
    }
    let mut i: usize = 0;
    while i < x.len()
        invariant
            i <= x@.len(),
            x@.len() == y@.len(),
            x@ == a@,
            y@ == b@,
            forall|j: int| 0 <= j < i ==> x@[j] == y@[j],
        decreases x.len() - i,
    {
        if x[i] != y[i] {
            assert(x@[i as int] != y@[i as int]);
            assert(a@ != b@);
            return false;
        }
        i = i + 1;
    }
    assert(x@ =~= y@);
    true
}

// ---------------------------------------------------------------------------
// Decimal numbers
// ---------------------------------------------------------------------------

/// The decimal digit for `n` (less than 10).
pub open spec fn decimal_digit_char(n: nat) -> char {
    ('0' as int + n) as char
}

/// The decimal text of `n`, without leading zeros, as `{}` writes an unsigned integer.
pub open spec fn decimal_text(n: nat) -> Seq<char>
    decreases n,
{
    if n < 10 {
        seq![decimal_digit_char(n)]
    } else {
        decimal_text(n / 10).push(decimal_digit_char(n % 10))
    }
}

/// Appends the decimal text of `n`.
pub fn push_decimal(s: &mut String, n: u64)
    ensures
        final(s)@ == old(s)@ + decimal_text(n as nat),
    decreases n,
{
    if n >= 10 {
        push_decimal(s, n / 10);
    }
    let d: u8 = (n % 10) as u8;
    push_char(s, (('0' as u8) + d) as char);
    assert(final(s)@ =~= old(s)@ + decimal_text(n as nat));
}

/// The digit written for `k` (below ten) reads back as `k`.
proof fn lemma_decimal_digit_char(k: nat)
    requires
        k < 10,
    ensures
        digit_value(decimal_digit_char(k), 10) == Some(k),
        '0' <= decimal_digit_char(k) <= '9',
        decimal_digit_char(k) == '0' <==> k == 0,
{
}

/// The decimal text of a number reads back, in base ten, as that number, and it starts with
/// `0` only when the number is zero.
pub proof fn lemma_decimal_text_reads_back(n: nat)
    ensures
        decimal_text(n).len() >= 1,
        digits_value(decimal_text(n), 10) == Some(n),
        decimal_text(n)[0] == '0' <==> n == 0,
        n == 0 ==> decimal_text(n) == seq!['0'],
    decreases n,
{
    if n < 10 {
        lemma_decimal_digit_char(n);
        let t = seq![decimal_digit_char(n)];
        assert(t.drop_last() =~= Seq::<char>::empty());
        assert(digits_value(t.drop_last(), 10) == Some(0nat));
        assert(t.last() == decimal_digit_char(n));
        assert(decimal_text(n) == t);
    } else {
        let q = n / 10;
        let d = (n % 10) as nat;
        lemma_decimal_text_reads_back(q);
        lemma_decimal_digit_char(d);
        let t = decimal_text(q).push(decimal_digit_char(d));
        assert(t.drop_last() =~= decimal_text(q));
        assert(t.last() == decimal_digit_char(d));
        assert(digits_value(t.drop_last(), 10) == Some(q));
        assert(q * 10 + d == n);
        assert(decimal_text(n) == t);
        assert(t[0] == decimal_text(q)[0]);
    }
}

// ---------------------------------------------------------------------------
// White space, trimming, fields and lines
// ---------------------------------------------------------------------------

/// Whether `c` has the Unicode property White_Space, as `char::is_whitespace` decides.
pub open spec fn is_whitespace(c: char) -> bool {
    let u = c as u32;
    (0x9 <= u && u <= 0xd) || u == 0x20 || u == 0x85 || u == 0xa0 || u == 0x1680 || (0x2000 <= u
        && u <= 0x200a) || u == 0x2028 || u == 0x2029 || u == 0x202f || u == 0x205f || u == 0x3000
}

/// Whether `c` is white space (the Unicode property White_Space).
pub fn is_whitespace_char(c: char) -> (r: bool)
    ensures
        r == is_whitespace(c),
{
    let u: u32 = c as u32;
    (0x9 <= u && u <= 0xd) || u == 0x20 || u == 0x85 || u == 0xa0 || u == 0x1680 || (0x2000 <= u
        && u <= 0x200a) || u == 0x2028 || u == 0x2029 || u == 0x202f || u == 0x205f || u == 0x3000
}

/// `s` without its leading white space.
pub open spec fn trim_start_spec(s: Seq<char>) -> Seq<char>
    decreases s.len(),
{
    if s.len() > 0 && is_whitespace(s[0]) {
        trim_start_spec(s.drop_first())
    } else {
        s
    }
}

/// `s` without its trailing white space.
pub open spec fn trim_end_spec(s: Seq<char>) -> Seq<char>
    decreases s.len(),
{
    if s.len() > 0 && is_whitespace(s.last()) {
        trim_end_spec(s.drop_last())
    } else {
        s
    }
}

/// `s` without leading and trailing white space, as `str::trim` gives it.
pub open spec fn trim_spec(s: Seq<char>) -> Seq<char> {
    trim_end_spec(trim_start_spec(s))
}

/// The position of the first character of `s` that is no white space (or its length).
fn trim_start_position(s: &Vec<char>) -> (start: usize)
    ensures
        start <= s@.len(),
        trim_start_spec(s@) == s@.skip(start as int),
{
    let mut start: usize = 0;
    assert(s@.skip(0) =~= s@);
    while start < s.len() && is_whitespace_char(s[start])
        invariant
            start <= s@.len(),
            trim_start_spec(s@) == trim_start_spec(s@.skip(start as int)),
        decreases s.len() - start,
    {
        assert(s@.skip(start as int).drop_first() =~= s@.skip(start + 1));
        start = start + 1;
    }
    start
}

/// The position after the last character of `s` from `start` on that is no white space.
fn trim_end_position(s: &Vec<char>, start: usize) -> (end: usize)
    requires
        start <= s@.len(),
    ensures
        start <= end <= s@.len(),
        trim_end_spec(s@.skip(start as int)) == s@.subrange(start as int, end as int),
{
    let ghost t = s@.skip(start as int);
    let mut end: usize = s.len();
    assert(t.take(t.len() as int) =~= t);
    while end > start && is_whitespace_char(s[end - 1])
        invariant
            start <= end <= s@.len(),
            t == s@.skip(start as int),
            trim_end_spec(t) == trim_end_spec(t.take(end - start)),
        decreases end,
    {
        assert(t.take(end - start).drop_last() =~= t.take(end - start - 1));
        assert(t.take(end - start).last() == s@[end - 1]);
        end = end - 1;
    }
    assert(t.take(end - start) =~= s@.subrange(start as int, end as int));
    assert(end > start ==> t.take(end - start).last() == s@[end - 1]);
    end
}

/// The characters of `s` without leading and trailing white space.
pub fn trim_chars(s: &Vec<char>) -> (r: Vec<char>)
    ensures
        r@ == trim_spec(s@),
{
    let start = trim_start_position(s);
    let end = trim_end_position(s, start);
    let mut r: Vec<char> = Vec::new();
    let mut k: usize = start;
    while k < end
        invariant
            start <= k <= end <= s@.len(),
            r@ =~= s@.subrange(start as int, k as int),
        decreases end - k,
    {
        r.push(s[k]);
        k = k + 1;
    }
    r
}

/// The maximal runs of characters that are no white space, as `str::split_whitespace` gives them.
pub open spec fn whitespace_fields(s: Seq<char>) -> Seq<Seq<char>>
    decreases s.len(),
{
    if s.len() == 0 {
        Seq::empty()
    } else {
        let f = whitespace_fields(s.drop_last());
        let c = s.last();
        if is_whitespace(c) {
            f
        } else if s.len() >= 2 && !is_whitespace(s[s.len() - 2]) {
            f.update(f.len() - 1, f.last().push(c))
        } else {
            f.push(seq![c])
        }
    }
}

/// The fields of `s` separated by white space.
pub fn split_whitespace_chars(s: &Vec<char>) -> (fields: Vec<Vec<char>>)
    ensures
        fields@.len() == whitespace_fields(s@).len(),
        forall|i: int|
            0 <= i < fields@.len() ==> #[trigger] fields@[i]@ == whitespace_fields(s@)[i],
{
    let mut fields: Vec<Vec<char>> = Vec::new();
    let mut cur: Vec<char> = Vec::new();
    let mut i: usize = 0;
    assert(s@.take(0) =~= Seq::<char>::empty());
    while i < s.len()
        invariant
            i <= s@.len(),
            cur@.len() > 0 <==> (i > 0 && !is_whitespace(s@[i - 1])),
            cur@.len() > 0 ==> fields@.len() + 1 == whitespace_fields(s@.take(i as int)).len()
                && cur@ == whitespace_fields(s@.take(i as int)).last(),
            cur@.len() == 0 ==> fields@.len() == whitespace_fields(s@.take(i as int)).len(),
            forall|j: int|
                0 <= j < fields@.len() ==> #[trigger] fields@[j]@ == whitespace_fields(
                    s@.take(i as int),
                )[j],
        decreases s.len() - i,
    {
        let ghost prev = s@.take(i as int);
        let ghost next = s@.take(i + 1);
        assert(next.drop_last() =~= prev);
        assert(next.last() == s@[i as int]);
        assert(i > 0 ==> next[next.len() - 2] == s@[i - 1]);
        let c = s[i];
        if is_whitespace_char(c) {
            if cur.len() > 0 {
                fields.push(cur);
                cur = Vec::new();
            }
        } else {
            cur.push(c);
        }
        i = i + 1;
    }
    assert(s@.take(s@.len() as int) =~= s@);
    if cur.len() > 0 {
        fields.push(cur);
    }
    fields
}

/// `line` without one trailing carriage return.
pub open spec fn strip_cr(line: Seq<char>) -> Seq<char> {
    if line.len() > 0 && line.last() == '\r' {
        line.drop_last()
    } else {
        line
    }
}

/// The lines of `s`, as `str::lines` gives them: pieces ended by `\n` (without it, and without
/// a `\r` before it), then the rest if it is not empty.
pub open spec fn lines_spec(s: Seq<char>) -> Seq<Seq<char>> {
    let p = split_on(s, '\n');
    let ended = p.take(p.len() - 1).map_values(|l: Seq<char>| strip_cr(l));
    if p.last().len() > 0 {
        ended.push(p.last())
    } else {
        ended
    }
}

/// Every line of the output is read: after text that is empty or ends a line, a further line
/// `t` ended by `\n` adds `t` (without a trailing `\r`) as the last line, and an unended
/// non-empty `t` adds `t` itself.
pub proof fn lemma_lines_append_line(s: Seq<char>, t: Seq<char>)
    requires
        s.len() == 0 || s.last() == '\n',
        !t.contains('\n'),
    ensures
        lines_spec(s + t + seq!['\n']) == lines_spec(s).push(strip_cr(t)),
        t.len() > 0 ==> lines_spec(s + t) == lines_spec(s).push(t),
        lines_spec(Seq::<char>::empty()).len() == 0,
{
    assert(split_on(Seq::<char>::empty(), '\n').take(0) =~= Seq::<Seq<char>>::empty());
    let nl = '\n';
    let e = Seq::<char>::empty();
    lemma_split_on_no_sep(t, nl);
    lemma_split_on_no_sep(e, nl);
    // the pieces of `t` ended by a newline
    lemma_split_on_concat(t, e, nl);
    assert(t + seq![nl] + e =~= t + seq![nl]);
    let pt = split_on(t + seq![nl], nl);
    assert(pt =~= seq![t, e]);
    if s.len() == 0 {
        assert(s + t + seq![nl] =~= t + seq![nl]);
        assert(s + t =~= t);
        assert(split_on(s, nl) =~= seq![e]);
        assert(lines_spec(s) =~= Seq::<Seq<char>>::empty());
        assert(pt.take(1) =~= seq![t]);
        assert(lines_spec(s + t + seq![nl]) =~= seq![strip_cr(t)]);
        if t.len() > 0 {
            assert(split_on(t, nl).take(0) =~= Seq::<Seq<char>>::empty());
            assert(lines_spec(s + t) =~= seq![t]);
        }
    } else {
        let s0 = s.drop_last();
        assert(s =~= s0 + seq![nl] + e);
        lemma_split_on_concat(s0, e, nl);
        let p0 = split_on(s0, nl);
        let ps = split_on(s, nl);
        assert(ps =~= p0 + seq![e]);
        assert(s + t + seq![nl] =~= s0 + seq![nl] + (t + seq![nl]));
        lemma_split_on_concat(s0, t + seq![nl], nl);
        let p1 = split_on(s + t + seq![nl], nl);
        assert(p1 =~= p0 + seq![t, e]);
        assert(ps.take(ps.len() - 1) =~= p0);
        assert(p1.take(p1.len() - 1) =~= p0.push(t));
        assert(lines_spec(s) =~= p0.map_values(|l: Seq<char>| strip_cr(l)));
        assert(p0.push(t).map_values(|l: Seq<char>| strip_cr(l)) =~= p0.map_values(
            |l: Seq<char>| strip_cr(l),
        ).push(strip_cr(t)));
        assert(lines_spec(s + t + seq![nl]) =~= lines_spec(s).push(strip_cr(t)));
        if t.len() > 0 {
            assert(s + t =~= s0 + seq![nl] + t);
            lemma_split_on_concat(s0, t, nl);
            let p2 = split_on(s + t, nl);
            assert(p2 =~= p0 + seq![t]);
            assert(p2.take(p2.len() - 1) =~= p0);
            assert(lines_spec(s + t) =~= lines_spec(s).push(t));
        }
    }
}

/// The lines of `s`, as `str::lines` gives them.
pub fn lines_chars(s: &Vec<char>) -> (lines: Vec<Vec<char>>)
    ensures
        lines@.len() == lines_spec(s@).len(),
        forall|i: int| 0 <= i < lines@.len() ==> #[trigger] lines@[i]@ == lines_spec(s@)[i],
{
    let pieces = split_chars(s, '\n');
    let ghost p = split_on(s@, '\n');
    proof {
        lemma_split_on_nonempty(s@, '\n');
    }
    let n: usize = pieces.len();
    let mut lines: Vec<Vec<char>> = Vec::new();
    let mut i: usize = 0;
    while i + 1 < n
        invariant
            n == pieces@.len() == p.len(),
            n >= 1,
            i + 1 <= n,
            p == split_on(s@, '\n'),
            forall|j: int| 0 <= j < n ==> #[trigger] pieces@[j]@ == p[j],
            lines@.len() == i,
            forall|j: int| 0 <= j < i ==> #[trigger] lines@[j]@ == strip_cr(p[j]),
        decreases n - i,
    {
        let piece = &pieces[i];
        let mut line: Vec<char> = Vec::new();
        let len: usize = if piece.len() > 0 && piece[piece.len() - 1] == '\r' {
            piece.len() - 1
        } else {
            piece.len()
        };
        let mut k: usize = 0;
        while k < len
            invariant
                k <= len <= piece@.len(),
                line@ =~= piece@.take(k as int),
            decreases len - k,
        {
            line.push(piece[k]);
            k = k + 1;
        }
        assert(line@ =~= strip_cr(p[i as int]));
        lines.push(line);
        i = i + 1;
    }
    let ghost ended = p.take(p.len() - 1).map_values(|l: Seq<char>| strip_cr(l));
    if pieces[n - 1].len() > 0 {
        let mut last: Vec<char> = Vec::new();
        let mut k: usize = 0;
        while k < pieces[n - 1].len()
            invariant
                n == pieces@.len(),
                n >= 1,
                k <= pieces@[n - 1]@.len(),
                last@ =~= pieces@[n - 1]@.take(k as int),
            decreases pieces@[n - 1]@.len() - k,
        {
            last.push(pieces[n - 1][k]);
            k = k + 1;
        }
        assert(last@ =~= p.last());
        lines.push(last);
    }
    lines
}

} // verus!
