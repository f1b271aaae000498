//! The code-point table: the pairs it is built from, the forward mapping from
//! codes to characters, and the reverse mapping that the encoder uses.

use crate::error::CodecError;
use crate::unit::{in_two_byte_range, lemma_scalar_value, lemma_two_byte_range};
use std::collections::HashMap;
use vstd::prelude::*;
use vstd::std_specs::iter::IteratorSpec;

verus! {

broadcast use vstd::std_specs::hash::group_hash_axioms;

/// Every code of `pairs` lies in the two-byte range.
pub open spec fn codes_in_range(pairs: Seq<(u16, char)>) -> bool {
    forall|i: int| 0 <= i < pairs.len() ==> in_two_byte_range((#[trigger] pairs[i]).0)
}

/// No code occurs twice in `pairs`.
pub open spec fn codes_distinct(pairs: Seq<(u16, char)>) -> bool {
    forall|i: int, j: int|
        0 <= i < j < pairs.len() ==> (#[trigger] pairs[i]).0 != (#[trigger] pairs[j]).0
}

/// What a list of pairs must satisfy to be taken as a table: each code is a
/// two-byte code, and each code is listed once.
pub open spec fn well_formed(pairs: Seq<(u16, char)>) -> bool {
    codes_in_range(pairs) && codes_distinct(pairs)
}

/// `pairs` has an entry for `code`.
pub open spec fn lists_code(pairs: Seq<(u16, char)>, code: u16) -> bool {
    exists|i: int| 0 <= i < pairs.len() && (#[trigger] pairs[i]).0 == code
}

/// The place of an entry for `code` in `pairs`.
pub open spec fn entry_of(pairs: Seq<(u16, char)>, code: u16) -> int {
    choose|i: int| 0 <= i < pairs.len() && (#[trigger] pairs[i]).0 == code
}

/// The forward mapping of a list of pairs: it is defined on the codes that the
/// list holds and takes each to the character listed with it.
pub open spec fn forward_map(pairs: Seq<(u16, char)>) -> Map<u16, char> {
    Map::new(|code: u16| lists_code(pairs, code), |code: u16| pairs[entry_of(pairs, code)].1)
}

/// Every code of the mapping lies in the two-byte range.
pub open spec fn table_in_range(table: Map<u16, char>) -> bool {
    forall|code: u16| #[trigger] table.contains_key(code) ==> in_two_byte_range(code)
}

/// The forward mapping of a well-formed list holds exactly the listed pairs,
/// and all its codes are two-byte codes.
pub proof fn lemma_forward_map(pairs: Seq<(u16, char)>)
    requires
        well_formed(pairs),
    ensures
        table_in_range(forward_map(pairs)),
        forall|i: int|
            0 <= i < pairs.len() ==> forward_map(pairs).contains_key((#[trigger] pairs[i]).0)
                && forward_map(pairs)[pairs[i].0] == pairs[i].1,
{
    let table = forward_map(pairs);
    assert forall|code: u16| #[trigger] table.contains_key(code) implies in_two_byte_range(
        code,
    ) by {
        let i = entry_of(pairs, code);
        assert(pairs[i].0 == code);
    }
    assert forall|i: int| 0 <= i < pairs.len() implies table.contains_key((#[trigger] pairs[i]).0)
        && table[pairs[i].0] == pairs[i].1 by {
        let code = pairs[i].0;
        assert(lists_code(pairs, code));
        let j = entry_of(pairs, code);
        assert(pairs[j].0 == code);
        if i < j {
            assert(pairs[i].0 != pairs[j].0);
        } else if j < i {
            assert(pairs[j].0 != pairs[i].0);
        }
    }
}

/// Builds the forward mapping from the pairs of a table.
///
/// The list is taken if it is well formed, and the mapping then holds exactly
/// its pairs. A list with a code outside the two-byte range, or with a code
/// listed twice, is refused as malformed.
pub fn build_forward(pairs: &[(u16, char)]) -> (res: Result<HashMap<u16, char>, CodecError>)
    ensures
        res is Ok <==> well_formed(pairs@),
        res matches Ok(table) ==> table@ == forward_map(pairs@),
        res matches Err(e) ==> e == CodecError::InitializationError,
{
    let mut table: HashMap<u16, char> = HashMap::new();
    let mut i: usize = 0;
    while i < pairs.len()
        invariant
            i <= pairs.len(),
            well_formed(pairs@.take(i as int)),
            forall|code: u16|
                table@.contains_key(code) <==> lists_code(pairs@.take(i as int), code),
            forall|j: int|
                0 <= j < i ==> table@.contains_key((#[trigger] pairs@[j]).0) && table@[pairs@[j].0]
                    == pairs@[j].1,
        decreases pairs.len() - i,
    {
        let code: u16 = pairs[i].0;
        let ch: char = pairs[i].1;
        proof {
            lemma_two_byte_range(code);
        }
        if code < 0x8000 {
            return Err(CodecError::InitializationError);
        }
        if table.contains_key(&code) {
            proof {
                let ghost seen = pairs@.take(i as int);
                let j = entry_of(seen, code);
                assert(seen[j].0 == code);
                assert(pairs@[j].0 == pairs@[i as int].0);
            }
            return Err(CodecError::InitializationError);
        }
        table.insert(code, ch);
        proof {
            let ghost seen = pairs@.take(i as int);
            let ghost next = pairs@.take(i as int + 1);
            assert forall|j: int| 0 <= j < next.len() implies in_two_byte_range(
                (#[trigger] next[j]).0,
            ) by {
                if j < i {
                    assert(seen[j] == next[j]);
                }
            }
            assert forall|j: int, k: int| 0 <= j < k < next.len() implies (#[trigger] next[j]).0
                != (#[trigger] next[k]).0 by {
                assert(seen[j] == next[j]);
                if k < i {
                    assert(seen[k] == next[k]);
                } else {
                    assert(lists_code(seen, seen[j].0));
                }
            }
            assert forall|c: u16| table@.contains_key(c) <==> lists_code(next, c) by {
                if lists_code(seen, c) {
                    let j = entry_of(seen, c);
                    assert(next[j].0 == c);
                }
                if c == code {
                    assert(next[i as int].0 == c);
                }
                if lists_code(next, c) {
                    let j = entry_of(next, c);
                    if j < i {
                        assert(seen[j].0 == c);
                    }
                }
            }
            assert forall|j: int| 0 <= j <= i implies table@.contains_key(
                (#[trigger] pairs@[j]).0,
            ) && table@[pairs@[j].0] == pairs@[j].1 by {
                if j < i {
                    assert(seen[j].0 == pairs@[j].0);
                    assert(lists_code(seen, pairs@[j].0));
                }
            }
        }
        i += 1;
    }
    proof {
        assert(pairs@.take(i as int) == pairs@);
        lemma_forward_map(pairs@);
        assert(table@ =~= forward_map(pairs@)) by {
            assert forall|c: u16| table@.contains_key(c) implies table@[c] == forward_map(
                pairs@,
            )[c] by {
                let j = entry_of(pairs@, c);
                assert(pairs@[j].0 == c);
            }
        }
    }
    Ok(table)
}

/// `code` is the lowest code that `table` takes to `ch`.
pub open spec fn is_lowest_code(table: Map<u16, char>, ch: char, code: u16) -> bool {
    &&& table.contains_key(code)
    &&& table[code] == ch
    &&& forall|other: u16| #[trigger] table.contains_key(other) && table[other] == ch ==> code <= other
}

/// The lowest code that `table` takes to `ch`, where there is one.
pub open spec fn lowest_code(table: Map<u16, char>, ch: char) -> u16 {
    choose|code: u16| is_lowest_code(table, ch, code)
}

/// The reverse mapping of a forward mapping: it is defined on the characters
/// that some code is taken to, and takes each to its code. Where several codes
/// are taken to one character, the lowest of them wins.
pub open spec fn reverse_map(table: Map<u16, char>) -> Map<char, u16> {
    Map::new(|ch: char| table.contains_value(ch), |ch: char| lowest_code(table, ch))
}

/// A mapping keyed by scalar values, read as a mapping keyed by characters.
pub open spec fn keyed_by_char(by_scalar: Map<u32, u16>) -> Map<char, u16> {
    Map::new(|ch: char| by_scalar.contains_key(ch as u32), |ch: char| by_scalar[ch as u32])
}

proof fn lemma_lowest_code_below(table: Map<u16, char>, ch: char, bound: u16)
    requires
        table.contains_key(bound),
        table[bound] == ch,
    ensures
        exists|code: u16| is_lowest_code(table, ch, code),
    decreases bound,
{
    if exists|other: u16| other < bound && table.contains_key(other) && table[other] == ch {
        let other = choose|other: u16|
            other < bound && table.contains_key(other) && table[other] == ch;
        lemma_lowest_code_below(table, ch, other);
    } else {
        assert(is_lowest_code(table, ch, bound));
    }
}

/// A character in the range of the mapping has a lowest code, and only one.
pub proof fn lemma_lowest_code(table: Map<u16, char>, ch: char)
    requires
        table.contains_value(ch),
    ensures
        is_lowest_code(table, ch, lowest_code(table, ch)),
        forall|code: u16| is_lowest_code(table, ch, code) ==> code == lowest_code(table, ch),
{
    let some = choose|code: u16| #[trigger] table.dom().contains(code) && table[code] == ch;
    lemma_lowest_code_below(table, ch, some);
}

/// Inverts a forward mapping.
///
/// The result is keyed by the characters' scalar values. Read by character, it
/// is the reverse mapping: the order in which the entries of `table` are
/// visited has no part in it.
pub fn invert(table: &HashMap<u16, char>) -> (reverse: HashMap<u32, u16>)
    ensures
        keyed_by_char(reverse@) == reverse_map(table@),
{
    let mut reverse: HashMap<u32, u16> = HashMap::new();
    let ghost entries = table.iter().remaining();
    let ghost mut done: int = 0;
    for entry in it: table.iter()
        invariant
            it.seq() == entries,
            it.index() == done,
            forall|key: u32| #[trigger]
                reverse@.contains_key(key) ==> exists|j: int|
                    0 <= j < done && (*(#[trigger] entries[j]).1) as u32 == key && *entries[j].0
                        == reverse@[key],
            forall|j: int|
                0 <= j < done ==> reverse@.contains_key((*(#[trigger] entries[j]).1) as u32)
                    && reverse@[(*entries[j].1) as u32] <= *entries[j].0,
    {
        let code: u16 = *entry.0;
        let key: u32 = (*entry.1) as u32;
        let keep: bool = match reverse.get(&key) {
            Some(held) => *held <= code,
            None => false,
        };
        if !keep {
            reverse.insert(key, code);
        }
        proof {
            done = done + 1;
        }
    }
    proof {
        assert forall|ch: char| #[trigger] table@.contains_value(ch) implies reverse@.contains_key(
            ch as u32,
        ) && reverse@[ch as u32] == lowest_code(table@, ch) by {
            lemma_lowest_code(table@, ch);
            lemma_scalar_value(ch);
            let some = choose|code: u16| #[trigger] table@.dom().contains(code) && table@[code] == ch;
            let first = entries.index_of((&some, &table@[some]));
            assert(*entries[first].1 == ch);
            let held = reverse@[ch as u32];
            let source = choose|j: int|
                0 <= j < done && (*(#[trigger] entries[j]).1) as u32 == ch as u32 && *entries[j].0
                    == held;
            lemma_scalar_value(*entries[source].1);
            assert(table@[*entries[source].0] == *entries[source].1);
            assert forall|other: u16| #[trigger]
                table@.contains_key(other) && table@[other] == ch implies held <= other by {
                let at = entries.index_of((&other, &table@[other]));
                assert(*entries[at].1 == ch);
            }
            assert(is_lowest_code(table@, ch, held));
        }
        assert forall|ch: char| reverse@.contains_key(ch as u32) implies table@.contains_value(
            ch,
        ) by {
            lemma_scalar_value(ch);
            let source = choose|j: int|
                0 <= j < done && (*(#[trigger] entries[j]).1) as u32 == ch as u32 && *entries[j].0
                    == reverse@[ch as u32];
            lemma_scalar_value(*entries[source].1);
            assert(table@.contains_key(*entries[source].0) && table@[*entries[source].0] == ch);
        }
        assert(keyed_by_char(reverse@) =~= reverse_map(table@));
    }
    reverse
}

} // verus!
