use vstd::prelude::*;

verus! {

/// A prefix that a candidate address should start with: the text as given,
/// and the bytes that are compared.
#[derive(Clone)]
pub struct PrefixRule {
    pub raw: String,
    pub bytes: Vec<u8>,
}

/// ASCII lower-casing of one byte: `A`..=`Z` map to `a`..=`z`, all else is kept.
pub open spec fn ascii_lower(b: u8) -> u8 {
    if 65 <= b && b <= 90 {
        (b + 32) as u8
    } else {
        b
    }
}

/// Two bytes are equal up to ASCII case.
pub open spec fn bytes_eq_ignore_case(a: u8, b: u8) -> bool {
    ascii_lower(a) == ascii_lower(b)
}

/// Two bytes agree under the chosen comparison.
pub open spec fn byte_agrees(a: u8, b: u8, ignore_case: bool) -> bool {
    if ignore_case {
        bytes_eq_ignore_case(a, b)
    } else {
        a == b
    }
}

/// `candidate` starts with `prefix`, byte by byte, under the chosen comparison.
pub open spec fn starts_with(candidate: Seq<u8>, prefix: Seq<u8>, ignore_case: bool) -> bool {
    &&& prefix.len() <= candidate.len()
    &&& forall|i: int| 0 <= i < prefix.len() ==> byte_agrees(#[trigger] candidate[i], prefix[i], ignore_case)
}

fn to_ascii_lower(b: u8) -> (r: u8)
    ensures
        r == ascii_lower(b),
{
    if b >= 65 && b <= 90 {
        b + 32
    } else {
        b
    }
}

/// Byte equality that ignores ASCII case.
pub fn eq_ignore_ascii_case(a: u8, b: u8) -> (r: bool)
    ensures
        r == bytes_eq_ignore_case(a, b),
        r == same_letter_or_byte(a, b),
{
    proof {
        lemma_ignore_case_characterized(a, b);
    }
    a == b || to_ascii_lower(a) == to_ascii_lower(b)
}

/// Whether `candidate` begins with `prefix`; with `ignore_case` the bytes are
/// compared up to ASCII case.
pub fn candidate_matches(candidate: &[u8], prefix: &[u8], ignore_case: bool) -> (r: bool)
    ensures
        r == starts_with(candidate@, prefix@, ignore_case),
        ignore_case ==> (r <==> prefix@.len() <= candidate@.len() && forall|i: int|
            0 <= i < prefix@.len() ==> same_letter_or_byte(#[trigger] candidate@[i], prefix@[i])),
        !ignore_case ==> (r <==> prefix@.len() <= candidate@.len() && candidate@.subrange(
            0,
            prefix@.len() as int,
        ) == prefix@),
{
    proof {
        lemma_ignore_case_match_characterized(candidate@, prefix@);
        if !ignore_case && prefix@.len() <= candidate@.len() {
            if candidate@.subrange(0, prefix@.len() as int) == prefix@ {
                assert forall|i: int| 0 <= i < prefix@.len() implies byte_agrees(
                    #[trigger] candidate@[i],
                    prefix@[i],
                    false,
                ) by {
                    assert(candidate@.subrange(0, prefix@.len() as int)[i] == candidate@[i]);
                }
            }
            if starts_with(candidate@, prefix@, false) {
                assert(candidate@.subrange(0, prefix@.len() as int) =~= prefix@);
            }
        }
    }
    if candidate.len() < prefix.len() {
        return false;
    }
    let n = prefix.len();
    let mut i: usize = 0;
    while i < n
        invariant
            n == prefix@.len(),
            n <= candidate@.len(),
            i <= n,
            forall|j: int| 0 <= j < i ==> byte_agrees(#[trigger] candidate@[j], prefix@[j], ignore_case),
        decreases n - i,
    {
        let same = if ignore_case {
            eq_ignore_ascii_case(candidate[i], prefix[i])
        } else {
            candidate[i] == prefix[i]
        };
        if !same {
            return false;
        }
        i += 1;
    }
    true
}

} // verus!

verus! {

/// `rule` matches `candidate`: the candidate starts with the rule's bytes.
pub open spec fn rule_matches(rule: PrefixRule, candidate: Seq<u8>, ignore_case: bool) -> bool {
    starts_with(candidate, rule.bytes@, ignore_case)
}

/// `i` is the first rule of `rules` that matches `candidate`.
pub open spec fn is_first_match(
    rules: Seq<PrefixRule>,
    candidate: Seq<u8>,
    ignore_case: bool,
    i: int,
) -> bool {
    &&& 0 <= i < rules.len()
    &&& rule_matches(rules[i], candidate, ignore_case)
    &&& forall|j: int| 0 <= j < i ==> !rule_matches(#[trigger] rules[j], candidate, ignore_case)
}

/// No rule of `rules` matches `candidate`.
pub open spec fn no_rule_matches(rules: Seq<PrefixRule>, candidate: Seq<u8>, ignore_case: bool) -> bool {
    forall|j: int| 0 <= j < rules.len() ==> !rule_matches(#[trigger] rules[j], candidate, ignore_case)
}

/// The index of the first rule that `candidate` matches, if any.
pub fn find_matching_rule(candidate: &[u8], rules: &[PrefixRule], ignore_case: bool) -> (r: Option<usize>)
    ensures
        match r {
            Some(i) => is_first_match(rules@, candidate@, ignore_case, i as int),
            None => no_rule_matches(rules@, candidate@, ignore_case),
        },
{
    let mut i: usize = 0;
    while i < rules.len()
        invariant
            i <= rules@.len(),
            forall|j: int| 0 <= j < i ==> !rule_matches(#[trigger] rules@[j], candidate@, ignore_case),
        decreases rules@.len() - i,
    {
        if candidate_matches(candidate, rules[i].bytes.as_slice(), ignore_case) {
            return Some(i);
        }
        i += 1;
    }
    None
}

} // verus!

verus! {

/// A prefix that matches exactly also matches when case is ignored.
pub proof fn lemma_exact_match_implies_ignore_case(candidate: Seq<u8>, prefix: Seq<u8>)
    requires
        starts_with(candidate, prefix, false),
    ensures
        starts_with(candidate, prefix, true),
{
    assert forall|i: int| 0 <= i < prefix.len() implies byte_agrees(
        #[trigger] candidate[i],
        prefix[i],
        true,
    ) by {
        assert(byte_agrees(candidate[i], prefix[i], false));
    }
}

/// The empty prefix matches every candidate.
pub proof fn lemma_empty_prefix_matches(candidate: Seq<u8>, ignore_case: bool)
    ensures
        starts_with(candidate, Seq::empty(), ignore_case),
{
}

/// When case is ignored, prefixes that differ only in ASCII case match the
/// same candidates.
pub proof fn lemma_ignore_case_prefix_case_blind(candidate: Seq<u8>, p: Seq<u8>, q: Seq<u8>)
    requires
        p.len() == q.len(),
        forall|i: int| 0 <= i < p.len() ==> ascii_lower(#[trigger] p[i]) == ascii_lower(q[i]),
    ensures
        starts_with(candidate, p, true) == starts_with(candidate, q, true),
{
    if starts_with(candidate, p, true) {
        assert forall|i: int| 0 <= i < q.len() implies byte_agrees(#[trigger] candidate[i], q[i], true) by {
            assert(byte_agrees(candidate[i], p[i], true));
            assert(ascii_lower(p[i]) == ascii_lower(q[i]));
        }
    }
    if starts_with(candidate, q, true) {
        assert forall|i: int| 0 <= i < p.len() implies byte_agrees(#[trigger] candidate[i], p[i], true) by {
            assert(byte_agrees(candidate[i], q[i], true));
            assert(ascii_lower(p[i]) == ascii_lower(q[i]));
        }
    }
}

} // verus!

verus! {

/// `a` and `b` are the same byte, or the upper- and lower-case forms of one
/// ASCII letter (`A`..=`Z` is 65..=90, and its lower case is 32 higher).
pub open spec fn same_letter_or_byte(a: u8, b: u8) -> bool {
    ||| a == b
    ||| 65 <= a <= 90 && b == a + 32
    ||| 65 <= b <= 90 && a == b + 32
}

/// Ignoring ASCII case, two bytes are equal exactly when they are the same
/// byte or the two cases of one ASCII letter; no other byte is folded.
pub proof fn lemma_ignore_case_characterized(a: u8, b: u8)
    ensures
        bytes_eq_ignore_case(a, b) <==> same_letter_or_byte(a, b),
{
}

/// A case-insensitive prefix match compares every prefix byte with the
/// candidate's byte at the same place as the same byte or the other case of
/// the same ASCII letter.
pub proof fn lemma_ignore_case_match_characterized(candidate: Seq<u8>, prefix: Seq<u8>)
    ensures
        starts_with(candidate, prefix, true) <==> (prefix.len() <= candidate.len() && forall|i: int|
            0 <= i < prefix.len() ==> same_letter_or_byte(#[trigger] candidate[i], prefix[i])),
{
    assert forall|i: int| 0 <= i < prefix.len() && i < candidate.len() implies byte_agrees(
        #[trigger] candidate[i],
        prefix[i],
        true,
    ) == same_letter_or_byte(candidate[i], prefix[i]) by {
        lemma_ignore_case_characterized(candidate[i], prefix[i]);
    }
}

} // verus!
