use vstd::prelude::*;
use vstd::string::*;

use crate::matcher::PrefixRule;
use crate::text::{decimal, decimal_string, format_with_commas, group_thousands, join_strings};

verus! {

/// How many attempts a worker counts locally before adding them to the
/// shared total.
pub const ATTEMPT_BATCH: u64 = 100_000;

/// Attempts that a worker has made but not yet added to the shared total.
pub struct AttemptCounter {
    pub pending: u64,
}

impl AttemptCounter {
    /// A counter with nothing pending.
    pub fn new() -> (r: Self)
        ensures
            r.pending == 0,
    {
        AttemptCounter { pending: 0 }
    }

    /// Counts one attempt. Returns how many attempts to add to the shared
    /// total now: the whole batch once it is full, else nothing.
    pub fn record_attempt(&mut self) -> (flush: u64)
        requires
            old(self).pending < ATTEMPT_BATCH,
        ensures
            flush + final(self).pending == old(self).pending + 1,
            final(self).pending < ATTEMPT_BATCH,
            old(self).pending + 1 >= ATTEMPT_BATCH ==> flush == old(self).pending + 1
                && final(self).pending == 0,
            old(self).pending + 1 < ATTEMPT_BATCH ==> flush == 0 && final(self).pending
                == old(self).pending + 1,
    {
        self.pending = self.pending + 1;
        if self.pending >= ATTEMPT_BATCH {
            let flush = self.pending;
            self.pending = 0;
            flush
        } else {
            0
        }
    }

    /// Hands over everything pending, leaving nothing.
    pub fn take_pending(&mut self) -> (flush: u64)
        ensures
            flush == old(self).pending,
            final(self).pending == 0,
    {
        let flush = self.pending;
        self.pending = 0;
        flush
    }
}

/// Mining stops once `max_matches` matches are found; zero means never.
pub open spec fn mining_done(max_matches: u64, matches_found: u64) -> bool {
    max_matches != 0 && matches_found >= max_matches
}

/// The number of the next run, or `None` when mining is done.
pub fn next_run(max_matches: u64, matches_found: u64) -> (r: Option<u64>)
    requires
        matches_found < u64::MAX,
    ensures
        r is None <==> mining_done(max_matches, matches_found),
        r matches Some(k) ==> k == matches_found + 1,
{
    if max_matches != 0 && matches_found >= max_matches {
        None
    } else {
        Some(matches_found + 1)
    }
}

/// What the miner announces it will do for a given `--max-matches`.
pub open spec fn goal_text(max_matches: u64) -> Seq<char> {
    if max_matches == 0 {
        "Will keep mining indefinitely."@
    } else if max_matches == 1 {
        "Will stop after finding 1 match."@
    } else {
        "Will stop after finding "@ + decimal(max_matches as nat) + " matches."@
    }
}

/// The announcement of how long mining goes on.
pub fn goal_message(max_matches: u64) -> (r: String)
    ensures
        r@ == goal_text(max_matches),
{
    if max_matches == 0 {
        String::from_str("Will keep mining indefinitely.")
    } else if max_matches == 1 {
        String::from_str("Will stop after finding 1 match.")
    } else {
        let mut r = String::from_str("Will stop after finding ");
        let n = decimal_string(max_matches);
        r.append(n.as_str());
        r.append(" matches.");
        r
    }
}

/// The raw prefixes of the rules.
pub open spec fn rule_prefixes(rules: Seq<PrefixRule>) -> Seq<Seq<char>> {
    rules.map_values(|r: PrefixRule| r.raw@)
}

/// The announcement of the prefixes searched for, separated by `, `.
pub fn prefixes_message(rules: &[PrefixRule]) -> (r: String)
    ensures
        r@ == "Searching for prefixes: "@ + join_strings(rule_prefixes(rules@), ", "@),
{
    let mut joined = String::new();
    let mut i: usize = 0;
    while i < rules.len()
        invariant
            i <= rules@.len(),
            joined@ == join_strings(rule_prefixes(rules@.subrange(0, i as int)), ", "@),
        decreases rules@.len() - i,
    {
        if i > 0 {
            joined.append(", ");
        }
        joined.append(rules[i].raw.as_str());
        proof {
            let p = rule_prefixes(rules@.subrange(0, i + 1));
            assert(p.drop_last() =~= rule_prefixes(rules@.subrange(0, i as int)));
            assert(p.last() == rules@[i as int].raw@);
        }
        i += 1;
    }
    assert(rules@.subrange(0, rules@.len() as int) =~= rules@);
    let mut r = String::from_str("Searching for prefixes: ");
    r.append(joined.as_str());
    r
}

/// The periodic progress line: total attempts and rate, both with thousands
/// separators.
pub fn progress_line(timestamp: &str, total: u64, rate: u64) -> (r: String)
    ensures
        r@ == "["@ + timestamp@ + "] Total attempts: "@ + group_thousands(decimal(total as nat))
            + "  |  Rate: "@ + group_thousands(decimal(rate as nat)) + " attempts/s"@,
{
    let mut r = String::from_str("[");
    r.append(timestamp);
    r.append("] Total attempts: ");
    let t = format_with_commas(total);
    r.append(t.as_str());
    r.append("  |  Rate: ");
    let q = format_with_commas(rate);
    r.append(q.as_str());
    r.append(" attempts/s");
    r
}

} // verus!
