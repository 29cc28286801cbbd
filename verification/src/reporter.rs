use vstd::prelude::*;
use vstd::string::*;

use crate::backend::BackendMatch;
use crate::encoding::{debug_byte_list, debug_bytes};
use crate::text::{
    decimal, decimal_string, digits_value, lemma_decimal_digits, lemma_decimal_injective,
    lemma_decimal_value,
};

verus! {

/// The name of the `idx`-th result file for a prefix.
pub open spec fn result_file_name(prefix: Seq<char>, idx: u64) -> Seq<char> {
    "vanity_result_"@ + prefix + "_"@ + decimal(idx as nat) + ".txt"@
}

/// `vanity_result_{prefix}_{idx}.txt`.
pub fn result_path(prefix: &str, idx: u64) -> (r: String)
    ensures
        r@ == result_file_name(prefix@, idx),
{
    let mut r = String::from_str("vanity_result_");
    r.append(prefix);
    r.append("_");
    let n = decimal_string(idx);
    r.append(n.as_str());
    r.append(".txt");
    r
}

/// What follows probing the `idx`-th result file name.
#[derive(Clone, Copy, PartialEq, Eq, Debug)]
pub enum PathProbe {
    /// No file has that name: write the result there.
    Use,
    /// The name is taken: probe this index next.
    Next(u64),
}

/// The step of the search for the first free result file name: a free name
/// is used, a taken one sends the search to the next index.
pub fn after_probe(idx: u64, exists: bool) -> (r: PathProbe)
    requires
        exists ==> idx < u64::MAX,
    ensures
        r == (if exists {
            PathProbe::Next((idx + 1) as u64)
        } else {
            PathProbe::Use
        }),
{
    if exists {
        PathProbe::Next(idx + 1)
    } else {
        PathProbe::Use
    }
}

/// For one prefix, different indices name different files, so counting up
/// from 1 reaches a name that no earlier result took.
pub proof fn lemma_result_file_names_distinct(prefix: Seq<char>, i: u64, j: u64)
    requires
        i != j,
    ensures
        result_file_name(prefix, i) != result_file_name(prefix, j),
{
    let head = "vanity_result_"@ + prefix + "_"@;
    let tail = ".txt"@;
    let a = result_file_name(prefix, i);
    let b = result_file_name(prefix, j);
    lemma_decimal_injective(i as nat, j as nat);
    if a == b {
        let di = decimal(i as nat);
        let dj = decimal(j as nat);
        assert(a =~= head + di + tail);
        assert(b =~= head + dj + tail);
        assert(a.len() == b.len());
        assert(a.len() == head.len() + di.len() + tail.len());
        assert(b.len() == head.len() + dj.len() + tail.len());
        assert(di.len() == dj.len());
        assert(di =~= a.subrange(head.len() as int, (head.len() + di.len()) as int));
        assert(dj =~= b.subrange(head.len() as int, (head.len() + dj.len()) as int));
    }
}

/// The text of a saved result up to and including the attempt count.
pub open spec fn summary_head_text(timestamp: Seq<char>, m: BackendMatch, attempts: u64) -> Seq<
    char,
> {
    "["@ + timestamp + "] Prefix: "@ + m.prefix@ + "\nPublic key: "@ + m.public_str@
        + "\nPublic key (bytes): "@ + debug_byte_list(m.public_bytes@) + "\nSecret key (hex): "@
        + m.secret_hex@ + "\nSecret key (bytes): "@ + debug_byte_list(m.secret_bytes@)
        + "\nSecret key (json array): "@ + m.secret_json@ + "\nAttempts: "@ + decimal(
        attempts as nat,
    ) + "\n"@
}

/// The saved result of a match up to and including the attempt count; the
/// timing lines follow it.
pub fn summary_head(timestamp: &str, m: &BackendMatch, attempts: u64) -> (r: String)
    ensures
        r@ == summary_head_text(timestamp@, *m, attempts),
{
    let mut r = String::from_str("[");
    r.append(timestamp);
    r.append("] Prefix: ");
    r.append(m.prefix.as_str());
    r.append("\nPublic key: ");
    r.append(m.public_str.as_str());
    r.append("\nPublic key (bytes): ");
    let public_bytes = debug_bytes(m.public_bytes.as_slice());
    r.append(public_bytes.as_str());
    r.append("\nSecret key (hex): ");
    r.append(m.secret_hex.as_str());
    r.append("\nSecret key (bytes): ");
    let secret_bytes = debug_bytes(m.secret_bytes.as_slice());
    r.append(secret_bytes.as_str());
    r.append("\nSecret key (json array): ");
    r.append(m.secret_json.as_str());
    r.append("\nAttempts: ");
    let n = decimal_string(attempts);
    r.append(n.as_str());
    r.append("\n");
    r
}

} // verus!

verus! {

/// The result file name for `prefix` and `idx` is `vanity_result_`, the
/// whole prefix as given, `_`, the decimal digits of `idx` and `.txt`.
pub proof fn lemma_result_file_name_parts(prefix: Seq<char>, idx: u64)
    ensures
        ({
            let name = result_file_name(prefix, idx);
            let p: int = 14 + prefix.len() as int;
            &&& name.subrange(0, 14) == seq![
                'v',
                'a',
                'n',
                'i',
                't',
                'y',
                '_',
                'r',
                'e',
                's',
                'u',
                'l',
                't',
                '_',
            ]
            &&& name.subrange(14, p) == prefix
            &&& name[p] == '_'
            &&& name.len() >= p + 6
            &&& forall|x: int| p + 1 <= x < name.len() - 4 ==> 48 <= (#[trigger] name[x]) as nat <= 57
            &&& digits_value(name.subrange(p + 1, name.len() - 4)) == idx
            &&& name.subrange(name.len() - 4, name.len() as int) == seq!['.', 't', 'x', 't']
        }),
{
    reveal_strlit("vanity_result_");
    reveal_strlit("_");
    reveal_strlit(".txt");
    let name = result_file_name(prefix, idx);
    let d = decimal(idx as nat);
    let p: int = 14 + prefix.len() as int;
    lemma_decimal_digits(idx as nat);
    lemma_decimal_value(idx as nat);
    assert(name =~= "vanity_result_"@ + prefix + "_"@ + d + ".txt"@);
    assert(name.subrange(0, 14) =~= "vanity_result_"@);
    assert(name.subrange(14, p) =~= prefix);
    assert(name.subrange(p + 1, name.len() - 4) =~= d);
    assert(name.subrange(name.len() - 4, name.len() as int) =~= ".txt"@);
    assert forall|x: int| p + 1 <= x < name.len() - 4 implies 48 <= (#[trigger] name[x]) as nat <= 57 by {
        assert(name[x] == d[x - p - 1]);
    }
}

} // verus!
