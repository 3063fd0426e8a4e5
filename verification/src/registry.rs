//! The power-registry builder: consumes a fixed-size prefix of the
//! preprocessed lines, one per participant, and maps each line's first
//! character to the three-letter power code found in parentheses on it.

use vstd::prelude::*;
use indexmap::IndexMap;
use crate::strutil::{
    spec_trim, trim_str, is_upper, is_upper_char, first_at_from, find_char_from,
};
use crate::imap::{power_entries, insert_entry, pm_new, pm_insert};

verus! {

/// The number of participants: the registry consumes exactly this many
/// lines, regardless of their content.
pub const REGISTRY_PREFIX: usize = 7;

/// A three-letter uppercase code in parentheses (with optional surrounding
/// spaces inside them) starts at position `i`.
pub open spec fn code_at(s: Seq<char>, i: int) -> bool {
    0 <= i < s.len() && s[i] == '(' && {
        let k = first_at_from(s, i + 1, ')');
        k < s.len() && {
            let t = spec_trim(s.subrange(i + 1, k));
            t.len() == 3 && is_upper(t[0]) && is_upper(t[1]) && is_upper(t[2])
        }
    }
}

/// The code of the parenthesized group starting at `i`.
pub open spec fn code_value_at(s: Seq<char>, i: int) -> Seq<char> {
    spec_trim(s.subrange(i + 1, first_at_from(s, i + 1, ')')))
}

/// The position of the first parenthesized code at or after `i`.
pub open spec fn first_code_from(s: Seq<char>, i: int) -> Option<int>
    decreases s.len() - i,
{
    if i < 0 || i >= s.len() {
        None
    } else if code_at(s, i) {
        Some(i)
    } else {
        first_code_from(s, i + 1)
    }
}

pub proof fn lemma_first_code_props(s: Seq<char>, i: int)
    requires
        0 <= i,
    ensures
        match first_code_from(s, i) {
            Some(j) => i <= j && code_at(s, j) && forall|k: int| i <= k < j ==> !code_at(s, k),
            None => forall|k: int| i <= k ==> !code_at(s, k),
        },
    decreases s.len() - i,
{
    if 0 <= i < s.len() && !code_at(s, i) {
        lemma_first_code_props(s, i + 1);
    }
}

/// The three-letter power code of a registry line: the first parenthesized
/// uppercase code, or empty when the line has none.
pub open spec fn spec_power_code(s: Seq<char>) -> Seq<char> {
    match first_code_from(s, 0) {
        Some(i) => code_value_at(s, i),
        None => seq![],
    }
}

/// Extracts the first parenthesized three-letter uppercase code from a
/// registry line; a line without one yields the empty string (lenient, not
/// an error).
pub fn extract_power_code(s: &str) -> (r: String)
    ensures
        r@ == spec_power_code(s@),
{
    let n: usize = s.unicode_len();
    let mut i: usize = 0;
    while i < n
        invariant
            0 <= i <= n,
            n == s@.len(),
            forall|k: int| 0 <= k < i ==> !code_at(s@, k),
        decreases n - i,
    {
        if s.get_char(i) == '(' {
            let k = find_char_from(s, i + 1, ')');
            if k < n {
                let t = trim_str(s.substring_char(i + 1, k));
                if t.unicode_len() == 3 && is_upper_char(t.get_char(0)) && is_upper_char(
                    t.get_char(1),
                ) && is_upper_char(t.get_char(2)) {
                    proof {
                        assert(code_at(s@, i as int));
                        lemma_first_code_props(s@, 0);
                        match first_code_from(s@, 0) {
                            Some(j) => {
                                if j < i {
                                    assert(!code_at(s@, j));
                                }
                                if j > i {
                                    assert(!code_at(s@, i as int));
                                }
                            },
                            None => {
                                assert(!code_at(s@, i as int));
                            },
                        }
                    }
                    return t.to_owned();
                } else {
                    proof {
                        assert(!code_at(s@, i as int));
                    }
                }
            } else {
                proof {
                    assert(!code_at(s@, i as int));
                }
            }
        } else {
            proof {
                assert(!code_at(s@, i as int));
            }
        }
        i = i + 1;
    }
    proof {
        lemma_first_code_props(s@, 0);
        match first_code_from(s@, 0) {
            Some(j) => {
                assert(code_at(s@, j));
            },
            None => {},
        }
        reveal_strlit("");
        assert(""@ =~= spec_power_code(s@));
    }
    "".to_owned()
}

/// One registry line added to the entry list: the line's first character
/// becomes the key, its parenthesized code the value; an empty (trimmed)
/// line contributes nothing.
pub open spec fn spec_registry_line(
    es: Seq<(Seq<char>, Seq<char>)>,
    l: Seq<char>,
) -> Seq<(Seq<char>, Seq<char>)> {
    let t = spec_trim(l);
    if t.len() == 0 {
        es
    } else {
        insert_entry(es, seq![t[0]], spec_power_code(t))
    }
}

/// The registry built from a sequence of lines, in order.
pub open spec fn spec_registry(ls: Seq<Seq<char>>) -> Seq<(Seq<char>, Seq<char>)>
    decreases ls.len(),
{
    if ls.len() == 0 {
        seq![]
    } else {
        spec_registry_line(spec_registry(ls.drop_last()), ls.last())
    }
}

/// Builds the power registry from exactly the first `REGISTRY_PREFIX` lines
/// and returns it with the remaining lines. The prefix is always consumed
/// whole, regardless of its content.
pub fn build_power_registry(lines: &Vec<String>) -> (r: (IndexMap<String, String>, Vec<String>))
    requires
        lines@.len() >= REGISTRY_PREFIX,
    ensures
        power_entries(r.0) == spec_registry(lines.deep_view().take(REGISTRY_PREFIX as int)),
        r.1.deep_view() == lines.deep_view().skip(REGISTRY_PREFIX as int),
{
    let mut reg = pm_new();
    let mut i: usize = 0;
    proof {
        assert(lines.deep_view().take(0) =~= Seq::<Seq<char>>::empty());
        assert(power_entries(reg) =~= spec_registry(lines.deep_view().take(0)));
    }
    while i < REGISTRY_PREFIX
        invariant
            0 <= i <= REGISTRY_PREFIX,
            lines@.len() >= REGISTRY_PREFIX,
            power_entries(reg) == spec_registry(lines.deep_view().take(i as int)),
        decreases REGISTRY_PREFIX - i,
    {
        proof {
            assert(lines.deep_view()[i as int] == lines@[i as int]@);
            let next = lines.deep_view().take(i + 1);
            assert(next.drop_last() =~= lines.deep_view().take(i as int));
            assert(next.last() == lines.deep_view()[i as int]);
        }
        let t = trim_str(lines[i].as_str());
        if t.unicode_len() > 0 {
            let key = t.substring_char(0, 1);
            let code = extract_power_code(t);
            proof {
                assert(key@ =~= seq![spec_trim(lines.deep_view()[i as int])[0]]);
            }
            pm_insert(&mut reg, key.to_owned(), code);
        }
        i = i + 1;
    }
    let mut rest: Vec<String> = Vec::new();
    let n = lines.len();
    let mut j: usize = REGISTRY_PREFIX;
    proof {
        assert(rest.deep_view() =~= lines.deep_view().subrange(
            REGISTRY_PREFIX as int,
            REGISTRY_PREFIX as int,
        ));
    }
    while j < n
        invariant
            REGISTRY_PREFIX <= j <= n,
            n == lines@.len(),
            rest.deep_view() == lines.deep_view().subrange(REGISTRY_PREFIX as int, j as int),
        decreases n - j,
    {
        let ghost dv = rest.deep_view();
        rest.push(lines[j].clone());
        proof {
            assert(rest.deep_view() =~= dv.push(lines.deep_view()[j as int]));
            assert(lines.deep_view().subrange(REGISTRY_PREFIX as int, j + 1) =~= lines.deep_view()
                .subrange(REGISTRY_PREFIX as int, j as int).push(lines.deep_view()[j as int]));
        }
        j = j + 1;
    }
    proof {
        assert(lines.deep_view().subrange(REGISTRY_PREFIX as int, n as int) =~= lines.deep_view()
            .skip(REGISTRY_PREFIX as int));
    }
    (reg, rest)
}

} // verus!
