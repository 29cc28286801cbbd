use vstd::prelude::*;
use vstd::string::*;

verus! {

/// The characters of a list of strings.
pub open spec fn views(v: Seq<String>) -> Seq<Seq<char>> {
    v.map_values(|s: String| s@)
}

/// Appends one character (std's `String::push`).
#[verifier::external_body]
pub fn push_char(s: &mut String, c: char)
    ensures
        final(s)@ == old(s)@.push(c),
{
    s.push(c);
}

/// A new string holding the characters `chars[from..to]`.
pub fn string_from_chars(chars: &Vec<char>, from: usize, to: usize) -> (r: String)
    requires
        from <= to <= chars@.len(),
    ensures
        r@ == chars@.subrange(from as int, to as int),
{
    let mut r = String::new();
    let mut i = from;
    while i < to
        invariant
            from <= i <= to <= chars@.len(),
            r@ == chars@.subrange(from as int, i as int),
        decreases to - i,
    {
        push_char(&mut r, chars[i]);
        i += 1;
        assert(r@ =~= chars@.subrange(from as int, i as int));
    }
    r
}

} // verus!

verus! {

/// The character of a decimal digit.
pub open spec fn digit_char(d: nat) -> char
    recommends
        d < 10,
{
    (48 + d) as char
}

/// The decimal notation of `n`, as `u64::to_string` writes it: no sign, no
/// leading zeros, `0` for zero.
pub open spec fn decimal(n: nat) -> Seq<char>
    decreases n,
{
    if n < 10 {
        seq![digit_char(n)]
    } else {
        decimal(n / 10).push(digit_char(n % 10))
    }
}

/// `s` with a comma before every group of three characters counted from the
/// right, except at the very start.
pub open spec fn group_thousands(s: Seq<char>) -> Seq<char>
    decreases s.len(),
{
    if s.len() <= 3 {
        s
    } else {
        group_thousands(s.subrange(0, s.len() - 3)) + seq![','] + s.subrange(
            s.len() - 3,
            s.len() as int,
        )
    }
}

/// The first `i` characters of `s` copied with a comma in front of every
/// position `j > 0` whose distance `n - j` to the end of a string of `n`
/// characters is a multiple of three.
spec fn comma_scan(s: Seq<char>, n: int, i: int) -> Seq<char>
    decreases i,
{
    if i <= 0 {
        Seq::empty()
    } else if i - 1 > 0 && (n - (i - 1)) % 3 == 0 {
        comma_scan(s, n, i - 1).push(',').push(s[i - 1])
    } else {
        comma_scan(s, n, i - 1).push(s[i - 1])
    }
}

proof fn lemma_comma_scan_shift(s: Seq<char>, t: Seq<char>, n: int, i: int)
    requires
        0 <= i <= t.len(),
        t.len() <= s.len(),
        forall|j: int| 0 <= j < t.len() ==> t[j] == s[j],
    ensures
        comma_scan(s, n, i) == comma_scan(t, n - 3, i),
    decreases i,
{
    if i > 0 {
        lemma_comma_scan_shift(s, t, n, i - 1);
        assert((n - (i - 1)) % 3 == ((n - 3) - (i - 1)) % 3);
    }
}

proof fn lemma_comma_scan_groups(s: Seq<char>)
    ensures
        comma_scan(s, s.len() as int, s.len() as int) == group_thousands(s),
    decreases s.len(),
{
    let n = s.len() as int;
    if n <= 3 {
        assert forall|i: int| 0 <= i <= n implies comma_scan(s, n, i) == s.subrange(0, i) by {
            lemma_comma_scan_prefix_small(s, n, i);
        }
        assert(s.subrange(0, n) =~= s);
    } else {
        let t = s.subrange(0, n - 3);
        lemma_comma_scan_groups(t);
        lemma_comma_scan_shift(s, t, n, n - 3);
        let a = comma_scan(s, n, n - 3);
        assert(comma_scan(s, n, n - 2) == a.push(',').push(s[n - 3]));
        assert(comma_scan(s, n, n - 1) == a.push(',').push(s[n - 3]).push(s[n - 2]));
        assert(comma_scan(s, n, n) == a.push(',').push(s[n - 3]).push(s[n - 2]).push(s[n - 1]));
        assert(comma_scan(s, n, n) =~= group_thousands(t) + seq![','] + s.subrange(n - 3, n));
    }
}

proof fn lemma_comma_scan_prefix_small(s: Seq<char>, n: int, i: int)
    requires
        n <= 3,
        n == s.len(),
        0 <= i <= n,
    ensures
        comma_scan(s, n, i) == s.subrange(0, i),
    decreases i,
{
    if i > 0 {
        lemma_comma_scan_prefix_small(s, n, i - 1);
        assert(s.subrange(0, i) =~= s.subrange(0, i - 1).push(s[i - 1]));
    }
}

fn digit_to_char(d: u64) -> (c: char)
    requires
        d < 10,
    ensures
        c == digit_char(d as nat),
{
    let b: u8 = 48u8 + (d as u8);
    b as char
}

/// The decimal notation of `value` (what `u64::to_string` gives).
pub fn decimal_string(value: u64) -> (r: String)
    ensures
        r@ == decimal(value as nat),
{
    // digits, least significant first
    let mut digits: Vec<char> = Vec::new();
    let mut v = value;
    digits.push(digit_to_char(v % 10));
    v = v / 10;
    while v > 0
        invariant
            digits@.len() >= 1,
            v > 0 ==> decimal(value as nat) == decimal(v as nat) + digits@.reverse(),
            v == 0 ==> decimal(value as nat) == digits@.reverse(),
        decreases v,
    {
        digits.push(digit_to_char(v % 10));
        v = v / 10;
    }
    let mut r = String::new();
    let mut i = digits.len();
    while i > 0
        invariant
            i <= digits@.len(),
            r@ == digits@.reverse().subrange(0, digits@.len() - i),
        decreases i,
    {
        i -= 1;
        push_char(&mut r, digits[i]);
    }
    r
}

/// `value` in decimal with a comma between groups of three digits, counted
/// from the right: `1234567` gives `1,234,567`.
pub fn format_with_commas(value: u64) -> (r: String)
    ensures
        r@ == group_thousands(decimal(value as nat)),
{
    let s = decimal_string(value);
    let digits = s.as_str();
    let len = digits.unicode_len();
    let mut result = String::new();
    let mut i: usize = 0;
    while i < len
        invariant
            len == digits@.len(),
            i <= len,
            result@ == comma_scan(digits@, len as int, i as int),
        decreases len - i,
    {
        let ch = digits.get_char(i);
        if i > 0 && (len - i) % 3 == 0 {
            push_char(&mut result, ',');
        }
        push_char(&mut result, ch);
        i += 1;
    }
    proof {
        lemma_comma_scan_groups(digits@);
    }
    result
}

} // verus!

verus! {

/// The decimal numbers of `bytes` joined by `sep` (`[1, 2]` is the `Debug`
/// text of a byte array when the brackets are added).
pub fn join_byte_decimals(bytes: &[u8], sep: &str) -> (r: String)
    ensures
        r@ == crate::encoding::join_decimals(bytes@, sep@),
{
    let mut r = String::new();
    let mut i: usize = 0;
    while i < bytes.len()
        invariant
            i <= bytes@.len(),
            r@ == crate::encoding::join_decimals(bytes@.subrange(0, i as int), sep@),
        decreases bytes@.len() - i,
    {
        if i > 0 {
            r.append(sep);
        }
        let d = decimal_string(bytes[i] as u64);
        r.append(d.as_str());
        proof {
            let t = bytes@.subrange(0, i + 1);
            assert(t.drop_last() =~= bytes@.subrange(0, i as int));
            assert(t.last() == bytes@[i as int]);
            if i == 0 {
                assert(t.len() == 1);
            }
        }
        i += 1;
    }
    assert(bytes@.subrange(0, bytes@.len() as int) =~= bytes@);
    r
}

/// The strings joined by `sep`.
pub open spec fn join_strings(parts: Seq<Seq<char>>, sep: Seq<char>) -> Seq<char>
    decreases parts.len(),
{
    if parts.len() == 0 {
        Seq::empty()
    } else if parts.len() == 1 {
        parts[0]
    } else {
        join_strings(parts.drop_last(), sep) + sep + parts.last()
    }
}

} // verus!

verus! {

/// `s` with every comma removed.
pub open spec fn strip_commas(s: Seq<char>) -> Seq<char>
    decreases s.len(),
{
    if s.len() == 0 {
        Seq::empty()
    } else if s.last() == ',' {
        strip_commas(s.drop_last())
    } else {
        strip_commas(s.drop_last()).push(s.last())
    }
}

/// The number that a string of decimal digits writes.
pub open spec fn digits_value(s: Seq<char>) -> nat
    decreases s.len(),
{
    if s.len() == 0 {
        0
    } else {
        digits_value(s.drop_last()) * 10 + ((s.last() as nat) - 48) as nat
    }
}

proof fn lemma_strip_commas_append(a: Seq<char>, b: Seq<char>)
    ensures
        strip_commas(a + b) == strip_commas(a) + strip_commas(b),
    decreases b.len(),
{
    if b.len() == 0 {
        assert(a + b =~= a);
    } else {
        lemma_strip_commas_append(a, b.drop_last());
        assert((a + b).drop_last() =~= a + b.drop_last());
        assert((a + b).last() == b.last());
    }
}

pub proof fn lemma_decimal_digits(n: nat)
    ensures
        decimal(n).len() > 0,
        forall|i: int| 0 <= i < decimal(n).len() ==> 48 <= (#[trigger] decimal(n)[i]) as nat <= 57,
    decreases n,
{
    if n >= 10 {
        lemma_decimal_digits(n / 10);
    }
}

proof fn lemma_strip_no_commas(s: Seq<char>)
    requires
        !s.contains(','),
    ensures
        strip_commas(s) == s,
    decreases s.len(),
{
    if s.len() > 0 {
        assert(!s.drop_last().contains(',')) by {
            assert forall|i: int| 0 <= i < s.drop_last().len() implies s.drop_last()[i] != ',' by {
                assert(s.drop_last()[i] == s[i]);
            }
        }
        lemma_strip_no_commas(s.drop_last());
        assert(s.last() == s[s.len() - 1]);
        assert(s.drop_last().push(s.last()) =~= s);
    }
}

proof fn lemma_strip_group_thousands(s: Seq<char>)
    requires
        !s.contains(','),
    ensures
        strip_commas(group_thousands(s)) == s,
    decreases s.len(),
{
    if s.len() <= 3 {
        lemma_strip_no_commas(s);
    } else {
        let a = s.subrange(0, s.len() - 3);
        let b = s.subrange(s.len() - 3, s.len() as int);
        assert(!a.contains(',')) by {
            assert forall|i: int| 0 <= i < a.len() implies a[i] != ',' by {
                assert(a[i] == s[i]);
            }
        }
        assert(!b.contains(',')) by {
            assert forall|i: int| 0 <= i < b.len() implies b[i] != ',' by {
                assert(b[i] == s[s.len() - 3 + i]);
            }
        }
        lemma_strip_group_thousands(a);
        lemma_strip_no_commas(b);
        let g = group_thousands(a);
        lemma_strip_commas_append(g + seq![','], b);
        lemma_strip_commas_append(g, seq![',']);
        assert(strip_commas(seq![',']) == Seq::<char>::empty()) by {
            let c = seq![','];
            assert(c.drop_last() =~= Seq::<char>::empty());
            assert(c.last() == ',');
            assert(strip_commas(c.drop_last()) == Seq::<char>::empty());
        }
        assert(a + b =~= s);
    }
}

/// Removing the separators from `format_with_commas(n)` gives back the plain
/// decimal notation of `n`.
pub proof fn lemma_commas_removed(n: nat)
    ensures
        strip_commas(group_thousands(decimal(n))) == decimal(n),
{
    lemma_decimal_digits(n);
    assert(!decimal(n).contains(',')) by {
        assert forall|i: int| 0 <= i < decimal(n).len() implies decimal(n)[i] != ',' by {
            assert(48 <= decimal(n)[i] as nat);
        }
    }
    lemma_strip_group_thousands(decimal(n));
}

/// The decimal notation of `n` reads back as `n`.
pub proof fn lemma_decimal_value(n: nat)
    ensures
        digits_value(decimal(n)) == n,
    decreases n,
{
    if n >= 10 {
        lemma_decimal_value(n / 10);
        let s = decimal(n);
        assert(s.drop_last() == decimal(n / 10));
        assert(s.last() == digit_char(n % 10));
        assert((digit_char(n % 10) as nat) == 48 + n % 10);
        assert(digits_value(s) == digits_value(s.drop_last()) * 10 + ((s.last() as nat) - 48) as nat);
        assert(n / 10 * 10 + n % 10 == n);
    } else {
        let s = decimal(n);
        assert(s.drop_last() =~= Seq::<char>::empty());
        assert(digits_value(s.drop_last()) == 0);
        assert(s.last() == digit_char(n));
        assert((digit_char(n) as nat) == 48 + n);
        assert(digits_value(s) == digits_value(s.drop_last()) * 10 + ((s.last() as nat) - 48) as nat);
    }
}

/// Different numbers have different decimal notations.
pub proof fn lemma_decimal_injective(m: nat, n: nat)
    requires
        m != n,
    ensures
        decimal(m) != decimal(n),
{
    lemma_decimal_value(m);
    lemma_decimal_value(n);
}

} // verus!
