use vstd::prelude::*;
use vstd::string::*;

use crate::matcher::PrefixRule;
use crate::text::{string_from_chars, views};

verus! {

/// Unicode `White_Space`, the set that `char::is_whitespace` and `str::trim` use.
pub open spec fn is_whitespace(c: char) -> bool {
    let u = c as u32;
    ||| 0x09 <= u <= 0x0d
    ||| u == 0x20
    ||| u == 0x85
    ||| u == 0xa0
    ||| u == 0x1680
    ||| 0x2000 <= u <= 0x200a
    ||| u == 0x2028
    ||| u == 0x2029
    ||| u == 0x202f
    ||| u == 0x205f
    ||| u == 0x3000
}

/// `s` without its leading whitespace.
pub open spec fn trim_start(s: Seq<char>) -> Seq<char>
    decreases s.len(),
{
    if s.len() > 0 && is_whitespace(s[0]) {
        trim_start(s.drop_first())
    } else {
        s
    }
}

/// `s` without its trailing whitespace.
pub open spec fn trim_end(s: Seq<char>) -> Seq<char>
    decreases s.len(),
{
    if s.len() > 0 && is_whitespace(s.last()) {
        trim_end(s.drop_last())
    } else {
        s
    }
}

/// `s` without leading and trailing whitespace.
pub open spec fn trim(s: Seq<char>) -> Seq<char> {
    trim_end(trim_start(s))
}

/// The pieces of `s` between commas, as `str::split(',')` yields them: one
/// piece more than there are commas, empty pieces included.
pub open spec fn split_commas(s: Seq<char>) -> Seq<Seq<char>>
    decreases s.len(),
{
    if s.len() == 0 {
        seq![Seq::<char>::empty()]
    } else {
        let parts = split_commas(s.drop_last());
        if s.last() == ',' {
            parts.push(Seq::<char>::empty())
        } else {
            parts.update(parts.len() - 1, parts.last().push(s.last()))
        }
    }
}

/// The trimmed pieces that are not empty, in order.
pub open spec fn kept_parts(parts: Seq<Seq<char>>) -> Seq<Seq<char>>
    decreases parts.len(),
{
    if parts.len() == 0 {
        Seq::empty()
    } else {
        let rest = kept_parts(parts.drop_last());
        let t = trim(parts.last());
        if t.len() > 0 {
            rest.push(t)
        } else {
            rest
        }
    }
}

/// Every item split at commas, trimmed, empty pieces dropped, in order.
pub open spec fn expand_all(items: Seq<Seq<char>>) -> Seq<Seq<char>>
    decreases items.len(),
{
    if items.len() == 0 {
        Seq::empty()
    } else {
        expand_all(items.drop_last()) + kept_parts(split_commas(items.last()))
    }
}

/// The prefixes that a list of `--prefix` arguments stands for: the pieces of
/// `expand_all`, or the single default prefix `xyber` where there are none.
pub open spec fn expanded_prefixes(items: Seq<Seq<char>>) -> Seq<Seq<char>> {
    let e = expand_all(items);
    if e.len() == 0 {
        seq!["xyber"@]
    } else {
        e
    }
}

fn is_whitespace_char(c: char) -> (r: bool)
    ensures
        r == is_whitespace(c),
{
    let u = c as u32;
    (0x09 <= u && u <= 0x0d) || u == 0x20 || u == 0x85 || u == 0xa0 || u == 0x1680 || (0x2000
        <= u && u <= 0x200a) || u == 0x2028 || u == 0x2029 || u == 0x202f || u == 0x205f || u
        == 0x3000
}

proof fn lemma_split_commas_nonempty(s: Seq<char>)
    ensures
        split_commas(s).len() >= 1,
    decreases s.len(),
{
    if s.len() > 0 {
        lemma_split_commas_nonempty(s.drop_last());
    }
}

/// The trimmed characters of `chars` as a new string.
fn trimmed(chars: &Vec<char>) -> (r: String)
    ensures
        r@ == trim(chars@),
{
    let n = chars.len();
    let mut a: usize = 0;
    assert(chars@.subrange(0, n as int) =~= chars@);
    while a < n && is_whitespace_char(chars[a])
        invariant
            n == chars@.len(),
            a <= n,
            trim_start(chars@) == trim_start(chars@.subrange(a as int, n as int)),
        decreases n - a,
    {
        assert(chars@.subrange(a as int, n as int).drop_first() =~= chars@.subrange(
            a + 1,
            n as int,
        ));
        a += 1;
    }
    assert(trim_start(chars@) == chars@.subrange(a as int, n as int));
    let mut b: usize = n;
    while b > a && is_whitespace_char(chars[b - 1])
        invariant
            n == chars@.len(),
            a <= b <= n,
            trim(chars@) == trim_end(chars@.subrange(a as int, b as int)),
        decreases b - a,
    {
        assert(chars@.subrange(a as int, b as int).drop_last() =~= chars@.subrange(
            a as int,
            b - 1,
        ));
        b -= 1;
    }
    string_from_chars(chars, a, b)
}

/// Splits every item at commas, trims the pieces and keeps the non-empty
/// ones, in order; where nothing is left, the single default prefix `xyber`.
pub fn expand_prefixes(raw_list: &[String]) -> (r: Vec<String>)
    ensures
        views(r@) == expanded_prefixes(views(raw_list@)),
{
    let mut expanded: Vec<String> = Vec::new();
    if raw_list.len() == 0 {
        expanded.push(String::from_str("xyber"));
        assert(views(expanded@) =~= expanded_prefixes(views(raw_list@)));
        return expanded;
    }
    let mut k: usize = 0;
    while k < raw_list.len()
        invariant
            k <= raw_list@.len(),
            views(expanded@) == expand_all(views(raw_list@.subrange(0, k as int))),
        decreases raw_list@.len() - k,
    {
        let item = raw_list[k].as_str();
        let n = item.unicode_len();
        let ghost base = views(expanded@);
        let mut cur: Vec<char> = Vec::new();
        let mut i: usize = 0;
        proof {
            assert(item@.subrange(0, 0) =~= Seq::<char>::empty());
        }
        while i < n
            invariant
                n == item@.len(),
                i <= n,
                split_commas(item@.subrange(0, i as int)).len() >= 1,
                cur@ == split_commas(item@.subrange(0, i as int)).last(),
                views(expanded@) == base + kept_parts(
                    split_commas(item@.subrange(0, i as int)).drop_last(),
                ),
            decreases n - i,
        {
            let c = item.get_char(i);
            let ghost pre = item@.subrange(0, i as int);
            let ghost next = item@.subrange(0, i + 1);
            proof {
                assert(next.drop_last() =~= pre);
                assert(next.last() == c);
                lemma_split_commas_nonempty(next);
            }
            if c == ',' {
                let ghost p = split_commas(pre);
                let t = trimmed(&cur);
                let ghost before = views(expanded@);
                if t.unicode_len() > 0 {
                    expanded.push(t);
                    assert(views(expanded@) =~= before.push(t@));
                }
                cur = Vec::new();
                proof {
                    assert(kept_parts(p) == (if trim(p.last()).len() > 0 {
                        kept_parts(p.drop_last()).push(trim(p.last()))
                    } else {
                        kept_parts(p.drop_last())
                    }));
                    assert(split_commas(next) == p.push(Seq::<char>::empty()));
                    assert(split_commas(next).drop_last() =~= p);
                    assert(views(expanded@) =~= base + kept_parts(p));
                }
            } else {
                cur.push(c);
                proof {
                    let p = split_commas(pre);
                    let q = split_commas(next);
                    assert(q == p.update(p.len() - 1, p.last().push(c)));
                    assert(q.drop_last() =~= p.drop_last());
                    assert(cur@ =~= q.last());
                }
            }
            i += 1;
        }
        let ghost p = split_commas(item@.subrange(0, n as int));
        let t = trimmed(&cur);
        let ghost before = views(expanded@);
        if t.unicode_len() > 0 {
            expanded.push(t);
            assert(views(expanded@) =~= before.push(t@));
        }
        proof {
            assert(kept_parts(p) == (if trim(p.last()).len() > 0 {
                kept_parts(p.drop_last()).push(trim(p.last()))
            } else {
                kept_parts(p.drop_last())
            }));
            let items = views(raw_list@.subrange(0, k + 1));
            assert(item@.subrange(0, n as int) =~= item@);
            assert(items.drop_last() =~= views(raw_list@.subrange(0, k as int)));
            assert(items.last() == item@);
            assert(views(expanded@) =~= base + kept_parts(split_commas(item@)));
        }
        k += 1;
    }
    proof {
        assert(raw_list@.subrange(0, raw_list@.len() as int) =~= raw_list@);
    }
    if expanded.len() == 0 {
        expanded.push(String::from_str("xyber"));
        assert(views(expanded@) =~= expanded_prefixes(views(raw_list@)));
    }
    expanded
}

/// The prefix rules for a list of `--prefix` arguments: each expanded prefix,
/// with its UTF-8 bytes as the bytes that are compared.
pub fn prefix_rules_from_args(raw_list: &[String]) -> (r: Vec<PrefixRule>)
    ensures
        r@.len() == expanded_prefixes(views(raw_list@)).len(),
        forall|i: int|
            0 <= i < r@.len() ==> {
                &&& (#[trigger] r@[i]).raw@ == expanded_prefixes(views(raw_list@))[i]
                &&& r@[i].bytes@ == vstd::utf8::encode_utf8(r@[i].raw@)
            },
{
    let prefixes = expand_prefixes(raw_list);
    let ghost e = expanded_prefixes(views(raw_list@));
    let mut rules: Vec<PrefixRule> = Vec::new();
    let mut i: usize = 0;
    while i < prefixes.len()
        invariant
            i <= prefixes@.len(),
            views(prefixes@) == e,
            rules@.len() == i,
            forall|j: int|
                0 <= j < i ==> {
                    &&& (#[trigger] rules@[j]).raw@ == e[j]
                    &&& rules@[j].bytes@ == vstd::utf8::encode_utf8(rules@[j].raw@)
                },
        decreases prefixes@.len() - i,
    {
        let raw = prefixes[i].clone();
        let bytes = vstd::slice::slice_to_vec(raw.as_str().as_bytes());
        assert(raw@ == e[i as int]);
        rules.push(PrefixRule { raw, bytes });
        i += 1;
    }
    rules
}

} // verus!

verus! {

/// A prefix as the miner uses it: not empty, without commas, and neither
/// starting nor ending with whitespace.
pub open spec fn is_clean_prefix(p: Seq<char>) -> bool {
    &&& p.len() > 0
    &&& !p.contains(',')
    &&& !is_whitespace(p[0])
    &&& !is_whitespace(p.last())
}

proof fn lemma_trim_start_suffix(s: Seq<char>)
    ensures
        exists|k: int| 0 <= k <= s.len() && trim_start(s) == #[trigger] s.subrange(k, s.len() as int),
        trim_start(s).len() > 0 ==> !is_whitespace(trim_start(s)[0]),
    decreases s.len(),
{
    if s.len() > 0 && is_whitespace(s[0]) {
        lemma_trim_start_suffix(s.drop_first());
        let t = s.drop_first();
        let k = choose|k: int| 0 <= k <= t.len() && trim_start(t) == #[trigger] t.subrange(k, t.len() as int);
        assert(t.subrange(k, t.len() as int) =~= s.subrange(k + 1, s.len() as int));
    } else {
        assert(s.subrange(0, s.len() as int) =~= s);
    }
}

proof fn lemma_trim_end_prefix(s: Seq<char>)
    ensures
        exists|k: int| 0 <= k <= s.len() && trim_end(s) == #[trigger] s.subrange(0, k),
        trim_end(s).len() > 0 ==> !is_whitespace(trim_end(s).last()),
    decreases s.len(),
{
    if s.len() > 0 && is_whitespace(s.last()) {
        lemma_trim_end_prefix(s.drop_last());
        let t = s.drop_last();
        let k = choose|k: int| 0 <= k <= t.len() && trim_end(t) == #[trigger] t.subrange(0, k);
        assert(t.subrange(0, k) =~= s.subrange(0, k));
    } else {
        assert(s.subrange(0, s.len() as int) =~= s);
    }
}

/// A trimmed piece without commas that is not empty is a clean prefix.
proof fn lemma_trim_clean(s: Seq<char>)
    requires
        !s.contains(','),
        trim(s).len() > 0,
    ensures
        is_clean_prefix(trim(s)),
{
    let a = trim_start(s);
    lemma_trim_start_suffix(s);
    lemma_trim_end_prefix(a);
    let i = choose|k: int| 0 <= k <= s.len() && a == #[trigger] s.subrange(k, s.len() as int);
    let j = choose|k: int| 0 <= k <= a.len() && trim_end(a) == #[trigger] a.subrange(0, k);
    let t = trim(s);
    assert(t.len() > 0);
    assert(a[0] == t[0]);
    assert forall|x: int| 0 <= x < t.len() implies t[x] != ',' by {
        assert(t[x] == s[i + x]);
    }
}

proof fn lemma_split_commas_no_commas(s: Seq<char>)
    ensures
        forall|k: int| 0 <= k < split_commas(s).len() ==> !(#[trigger] split_commas(s)[k]).contains(','),
    decreases s.len(),
{
    if s.len() > 0 {
        lemma_split_commas_no_commas(s.drop_last());
        lemma_split_commas_nonempty(s.drop_last());
        let parts = split_commas(s.drop_last());
        if s.last() != ',' {
            let q = parts.update(parts.len() - 1, parts.last().push(s.last()));
            assert forall|k: int| 0 <= k < q.len() implies !(#[trigger] q[k]).contains(',') by {
                if k == parts.len() - 1 {
                    assert(!parts[k].contains(','));
                    assert forall|x: int| 0 <= x < q[k].len() implies q[k][x] != ',' by {
                        if x < parts[k].len() {
                            assert(q[k][x] == parts[k][x]);
                        }
                    }
                }
            }
        } else {
            let q = parts.push(Seq::<char>::empty());
            assert forall|k: int| 0 <= k < q.len() implies !(#[trigger] q[k]).contains(',') by {
                if k < parts.len() {
                    assert(q[k] == parts[k]);
                }
            }
        }
    }
}

proof fn lemma_kept_parts_clean(parts: Seq<Seq<char>>)
    requires
        forall|k: int| 0 <= k < parts.len() ==> !(#[trigger] parts[k]).contains(','),
    ensures
        forall|k: int| 0 <= k < kept_parts(parts).len() ==> is_clean_prefix(#[trigger] kept_parts(parts)[k]),
    decreases parts.len(),
{
    if parts.len() > 0 {
        let rest = parts.drop_last();
        assert forall|k: int| 0 <= k < rest.len() implies !(#[trigger] rest[k]).contains(',') by {
            assert(rest[k] == parts[k]);
        }
        lemma_kept_parts_clean(rest);
        let t = trim(parts.last());
        let r = kept_parts(rest);
        assert(!parts.last().contains(',')) by {
            assert(parts.last() == parts[parts.len() - 1]);
        }
        if t.len() > 0 {
            lemma_trim_clean(parts.last());
            assert(kept_parts(parts) == r.push(t));
            assert forall|k: int| 0 <= k < r.push(t).len() implies is_clean_prefix(#[trigger] r.push(t)[k]) by {
                if k < r.len() {
                    assert(r.push(t)[k] == r[k]);
                }
            }
        } else {
            assert(kept_parts(parts) == r);
        }
    }
}

proof fn lemma_expand_all_clean(items: Seq<Seq<char>>)
    ensures
        forall|k: int| 0 <= k < expand_all(items).len() ==> is_clean_prefix(#[trigger] expand_all(items)[k]),
    decreases items.len(),
{
    if items.len() > 0 {
        lemma_expand_all_clean(items.drop_last());
        lemma_split_commas_no_commas(items.last());
        lemma_kept_parts_clean(split_commas(items.last()));
        let a = expand_all(items.drop_last());
        let b = kept_parts(split_commas(items.last()));
        assert forall|k: int| 0 <= k < (a + b).len() implies is_clean_prefix(#[trigger] (a + b)[k]) by {
            if k < a.len() {
                assert((a + b)[k] == a[k]);
            } else {
                assert((a + b)[k] == b[k - a.len()]);
            }
        }
    }
}

/// Whatever the arguments, the miner searches for at least one prefix, and
/// every prefix it searches for is clean: not empty, without commas, without
/// whitespace at either end.
pub proof fn lemma_expanded_prefixes_clean(items: Seq<Seq<char>>)
    ensures
        expanded_prefixes(items).len() > 0,
        forall|k: int|
            0 <= k < expanded_prefixes(items).len() ==> is_clean_prefix(
                #[trigger] expanded_prefixes(items)[k],
            ),
{
    lemma_expand_all_clean(items);
    if expand_all(items).len() == 0 {
        reveal_strlit("xyber");
        let x = "xyber"@;
        assert(x.len() == 5);
        assert(!x.contains(',')) by {
            assert forall|i: int| 0 <= i < x.len() implies x[i] != ',' by {}
        }
    }
}

} // verus!

verus! {

proof fn lemma_trim_start_exact(s: Seq<char>)
    ensures
        exists|k: int|
            #![trigger s.subrange(k, s.len() as int)]
            0 <= k <= s.len() && trim_start(s) == s.subrange(k, s.len() as int) && (forall|x: int|
                0 <= x < k ==> is_whitespace(#[trigger] s[x])) && (k < s.len() ==> !is_whitespace(
                s[k],
            )),
    decreases s.len(),
{
    if s.len() > 0 && is_whitespace(s[0]) {
        let t = s.drop_first();
        lemma_trim_start_exact(t);
        let k = choose|k: int|
            #![trigger t.subrange(k, t.len() as int)]
            0 <= k <= t.len() && trim_start(t) == t.subrange(k, t.len() as int) && (forall|x: int|
                0 <= x < k ==> is_whitespace(#[trigger] t[x])) && (k < t.len() ==> !is_whitespace(
                t[k],
            ));
        assert(t.subrange(k, t.len() as int) =~= s.subrange(k + 1, s.len() as int));
        assert forall|x: int| 0 <= x < k + 1 implies is_whitespace(#[trigger] s[x]) by {
            if x > 0 {
                assert(s[x] == t[x - 1]);
            }
        }
        assert(k + 1 < s.len() ==> s[k + 1] == t[k]);
    } else {
        assert(s.subrange(0, s.len() as int) =~= s);
    }
}

proof fn lemma_trim_end_exact(s: Seq<char>)
    ensures
        exists|m: int|
            #![trigger s.subrange(0, m)]
            0 <= m <= s.len() && trim_end(s) == s.subrange(0, m) && (forall|x: int|
                m <= x < s.len() ==> is_whitespace(#[trigger] s[x])) && (m > 0 ==> !is_whitespace(
                s[m - 1],
            )),
    decreases s.len(),
{
    if s.len() > 0 && is_whitespace(s.last()) {
        let t = s.drop_last();
        lemma_trim_end_exact(t);
        let m = choose|m: int|
            #![trigger t.subrange(0, m)]
            0 <= m <= t.len() && trim_end(t) == t.subrange(0, m) && (forall|x: int|
                m <= x < t.len() ==> is_whitespace(#[trigger] t[x])) && (m > 0 ==> !is_whitespace(
                t[m - 1],
            ));
        assert(t.subrange(0, m) =~= s.subrange(0, m));
        assert forall|x: int| m <= x < s.len() implies is_whitespace(#[trigger] s[x]) by {
            if x < t.len() {
                assert(s[x] == t[x]);
            }
        }
        assert(m > 0 ==> s[m - 1] == t[m - 1]);
    } else {
        assert(s.subrange(0, s.len() as int) =~= s);
    }
}

/// Trimming keeps one contiguous piece of the text, characters unchanged:
/// it removes exactly the whitespace before the first and after the last
/// character that is not whitespace (everything, where all is whitespace).
pub proof fn lemma_trim_characterized(s: Seq<char>)
    ensures
        exists|i: int, j: int|
            #![trigger s.subrange(i, j)]
            {
                &&& 0 <= i <= j <= s.len()
                &&& trim(s) == s.subrange(i, j)
                &&& forall|x: int| 0 <= x < i ==> is_whitespace(#[trigger] s[x])
                &&& forall|x: int| j <= x < s.len() ==> is_whitespace(#[trigger] s[x])
                &&& i < j ==> !is_whitespace(s[i]) && !is_whitespace(s[j - 1])
            },
{
    lemma_trim_start_exact(s);
    let k = choose|k: int|
        #![trigger s.subrange(k, s.len() as int)]
        0 <= k <= s.len() && trim_start(s) == s.subrange(k, s.len() as int) && (forall|x: int|
            0 <= x < k ==> is_whitespace(#[trigger] s[x])) && (k < s.len() ==> !is_whitespace(
            s[k],
        ));
    let t = s.subrange(k, s.len() as int);
    lemma_trim_end_exact(t);
    let m = choose|m: int|
        #![trigger t.subrange(0, m)]
        0 <= m <= t.len() && trim_end(t) == t.subrange(0, m) && (forall|x: int|
            m <= x < t.len() ==> is_whitespace(#[trigger] t[x])) && (m > 0 ==> !is_whitespace(
            t[m - 1],
        ));
    let i = k;
    let j = k + m;
    assert(t.subrange(0, m) =~= s.subrange(i, j));
    assert forall|x: int| j <= x < s.len() implies is_whitespace(#[trigger] s[x]) by {
        assert(s[x] == t[x - k]);
    }
    if i < j {
        assert(s[j - 1] == t[m - 1]);
    }
}

} // verus!

verus! {

/// `p` is a contiguous piece of `s`, characters as they stand.
pub open spec fn is_piece_of(p: Seq<char>, s: Seq<char>) -> bool {
    exists|i: int, j: int| 0 <= i <= j <= s.len() && p == #[trigger] s.subrange(i, j)
}

proof fn lemma_piece_trans(p: Seq<char>, q: Seq<char>, s: Seq<char>)
    requires
        is_piece_of(p, q),
        is_piece_of(q, s),
    ensures
        is_piece_of(p, s),
{
    let (i, j) = choose|i: int, j: int| 0 <= i <= j <= q.len() && p == #[trigger] q.subrange(i, j);
    let (a, b) = choose|a: int, b: int| 0 <= a <= b <= s.len() && q == #[trigger] s.subrange(a, b);
    assert(p =~= s.subrange(a + i, a + j));
}

proof fn lemma_trim_is_piece(s: Seq<char>)
    ensures
        is_piece_of(trim(s), s),
{
    lemma_trim_characterized(s);
}

proof fn lemma_split_commas_pieces(s: Seq<char>)
    ensures
        forall|k: int| 0 <= k < split_commas(s).len() ==> is_piece_of(#[trigger] split_commas(s)[k], s),
        split_commas(s).len() >= 1,
        exists|i: int| 0 <= i <= s.len() && split_commas(s).last() == #[trigger] s.subrange(i, s.len() as int),
    decreases s.len(),
{
    if s.len() == 0 {
        assert(split_commas(s)[0] =~= s.subrange(0, 0));
    } else {
        let t = s.drop_last();
        lemma_split_commas_pieces(t);
        let p = split_commas(t);
        let q = split_commas(s);
        assert forall|k: int| 0 <= k < p.len() - 1 implies is_piece_of(q[k], s) by {
            assert(q[k] == p[k]);
            let (i, j) = choose|i: int, j: int| 0 <= i <= j <= t.len() && p[k] == #[trigger] t.subrange(i, j);
            assert(t.subrange(i, j) =~= s.subrange(i, j));
        }
        let i = choose|i: int| 0 <= i <= t.len() && p.last() == #[trigger] t.subrange(i, t.len() as int);
        if s.last() == ',' {
            assert(q[p.len() - 1] == p.last());
            assert(t.subrange(i, t.len() as int) =~= s.subrange(i, t.len() as int));
            assert(q.last() =~= s.subrange(s.len() as int, s.len() as int));
        } else {
            assert(q.last() =~= s.subrange(i, s.len() as int));
        }
        assert forall|k: int| 0 <= k < q.len() implies is_piece_of(#[trigger] q[k], s) by {
            if k < p.len() - 1 {
            } else if k == p.len() - 1 {
                if s.last() == ',' {
                    assert(t.subrange(i, t.len() as int) =~= s.subrange(i, t.len() as int));
                } else {
                    assert(q[k] == q.last());
                }
            } else {
                assert(q[k] == q.last());
            }
        }
    }
}

proof fn lemma_kept_parts_pieces(parts: Seq<Seq<char>>, s: Seq<char>)
    requires
        forall|k: int| 0 <= k < parts.len() ==> is_piece_of(#[trigger] parts[k], s),
    ensures
        forall|k: int| 0 <= k < kept_parts(parts).len() ==> is_piece_of(#[trigger] kept_parts(parts)[k], s),
    decreases parts.len(),
{
    if parts.len() > 0 {
        let rest = parts.drop_last();
        assert forall|k: int| 0 <= k < rest.len() implies is_piece_of(#[trigger] rest[k], s) by {
            assert(rest[k] == parts[k]);
        }
        lemma_kept_parts_pieces(rest, s);
        let t = trim(parts.last());
        let r = kept_parts(rest);
        if t.len() > 0 {
            assert(is_piece_of(parts[parts.len() - 1], s));
            lemma_trim_is_piece(parts.last());
            lemma_piece_trans(t, parts.last(), s);
            assert(kept_parts(parts) == r.push(t));
            assert forall|k: int| 0 <= k < r.push(t).len() implies is_piece_of(#[trigger] r.push(t)[k], s) by {
                if k < r.len() {
                    assert(r.push(t)[k] == r[k]);
                }
            }
        } else {
            assert(kept_parts(parts) == r);
        }
    }
}

proof fn lemma_expand_all_pieces(items: Seq<Seq<char>>)
    ensures
        forall|k: int|
            0 <= k < expand_all(items).len() ==> exists|a: int|
                0 <= a < items.len() && is_piece_of(#[trigger] expand_all(items)[k], #[trigger] items[a]),
    decreases items.len(),
{
    if items.len() > 0 {
        let init = items.drop_last();
        lemma_expand_all_pieces(init);
        let s = items.last();
        lemma_split_commas_pieces(s);
        lemma_kept_parts_pieces(split_commas(s), s);
        let x = expand_all(init);
        let y = kept_parts(split_commas(s));
        assert forall|k: int| 0 <= k < (x + y).len() implies exists|a: int|
            0 <= a < items.len() && is_piece_of(#[trigger] (x + y)[k], #[trigger] items[a]) by {
            if k < x.len() {
                assert((x + y)[k] == x[k]);
                let a = choose|a: int| 0 <= a < init.len() && is_piece_of(#[trigger] x[k], #[trigger] init[a]);
                assert(items[a] == init[a]);
            } else {
                assert((x + y)[k] == y[k - x.len()]);
                assert(items[items.len() - 1] == s);
            }
        }
    }
}

/// Every prefix that the miner searches for is a contiguous piece of one of
/// the arguments, its characters kept as given; only where the arguments
/// yield nothing is it the default `xyber`.
pub proof fn lemma_expanded_prefixes_from_arguments(items: Seq<Seq<char>>)
    ensures
        expand_all(items).len() == 0 ==> expanded_prefixes(items) == seq!["xyber"@],
        forall|k: int|
            0 <= k < expand_all(items).len() ==> exists|a: int|
                0 <= a < items.len() && is_piece_of(
                    #[trigger] expanded_prefixes(items)[k],
                    #[trigger] items[a],
                ),
{
    lemma_expand_all_pieces(items);
}

} // verus!
