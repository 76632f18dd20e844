//! Switching services over: which legacy interfaces are enabled, and the listening-interface
//! lists of the target.

use vstd::prelude::*;

use crate::addr::texts;
use crate::errors::MigrationError;
use crate::text::{chars_of, dedupe_preserve_order, distinct_nonempty, is_space, space, split_items, tokens, Delims};

verus! {

/// Code-point lexicographic order on texts, the order of `str`'s `Ord`.
pub open spec fn text_le(a: Seq<char>, b: Seq<char>) -> bool
    decreases a.len(),
{
    if a.len() == 0 {
        true
    } else if b.len() == 0 {
        false
    } else if a[0] != b[0] {
        (a[0] as u32) < (b[0] as u32)
    } else {
        text_le(a.drop_first(), b.drop_first())
    }
}

/// The texts are in ascending order.
pub open spec fn sorted_texts(s: Seq<Seq<char>>) -> bool {
    forall|i: int, j: int| 0 <= i < j < s.len() ==> text_le(s[i], s[j])
}

/// Relies on `slice::sort` for `String`: the same elements, in ascending order.
#[verifier::external_body]
fn sort_texts(v: &mut Vec<String>)
    ensures
        texts(final(v)@).to_multiset() == texts(old(v)@).to_multiset(),
        sorted_texts(texts(final(v)@)),
{
    v.sort();
}

/// An enable flag is on when, white space aside, it holds something other than nothing or `0`.
pub open spec fn flag_on(s: Seq<char>) -> bool {
    &&& exists|i: int| 0 <= i < s.len() && !is_space(#[trigger] s[i])
    &&& !exists|k: int|
        0 <= k < s.len() && s[k] == '0' && forall|j: int|
            0 <= j < s.len() && j != k ==> is_space(#[trigger] s[j])
}

/// Whether an interface's enable flag is on; an absent flag is off.
pub fn is_enabled(flag: &Option<String>) -> (r: bool)
    ensures
        r == match flag {
            Some(s) => flag_on(s@),
            None => false,
        },
{
    let s = match flag {
        Some(s) => s,
        None => {
            return false;
        },
    };
    let cs = chars_of(s.as_str());
    let mut count: usize = 0;
    let mut at: usize = 0;
    let mut i: usize = 0;
    while i < cs.len()
        invariant
            i <= cs@.len(),
            cs@ == s@,
            count <= i,
            count == 0 ==> forall|j: int| 0 <= j < i ==> is_space(#[trigger] cs@[j]),
            count >= 1 ==> at < i && !is_space(cs@[at as int]),
            count == 1 ==> forall|j: int| 0 <= j < i && j != at ==> is_space(#[trigger] cs@[j]),
            count >= 2 ==> exists|a: int, b: int|
                0 <= a < b < i && !is_space(#[trigger] cs@[a]) && !is_space(#[trigger] cs@[b]),
        decreases cs@.len() - i,
    {
        if !space(cs[i]) {
            if count == 1 {
                assert(!is_space(cs@[at as int]) && !is_space(cs@[i as int]));
            }
            if count == 0 {
                at = i;
            }
            if count < 2 {
                count = count + 1;
            }
        }
        i = i + 1;
    }
    if count == 0 {
        false
    } else if count == 1 {
        proof {
            if cs[at as int] == '0' {
                assert(cs@[at as int] == '0');
            } else {
                assert forall|k: int|
                    0 <= k < s@.len() && s@[k] == '0' implies !(forall|j: int|
                    0 <= j < s@.len() && j != k ==> is_space(#[trigger] s@[j])) by {
                    if k != at {
                        assert(is_space(s@[k]));
                        assert(!is_space(s@[at as int]));
                    }
                }
            }
        }
        cs[at] != '0'
    } else {
        proof {
            let (a, b) = choose|a: int, b: int|
                0 <= a < b < cs@.len() && !is_space(#[trigger] cs@[a]) && !is_space(#[trigger] cs@[b]);
            assert forall|k: int|
                0 <= k < s@.len() && s@[k] == '0' implies !(forall|j: int|
                0 <= j < s@.len() && j != k ==> is_space(#[trigger] s@[j])) by {
                if k == a {
                    assert(!is_space(s@[b]));
                } else {
                    assert(!is_space(s@[a]));
                }
            }
        }
        true
    }
}

/// The names of the interfaces whose flag is on.
pub open spec fn enabled_names(flags: Seq<(String, Option<String>)>) -> Seq<Seq<char>>
    decreases flags.len(),
{
    if flags.len() == 0 {
        Seq::empty()
    } else {
        let rest = enabled_names(flags.drop_last());
        let on = match flags.last().1 {
            Some(s) => flag_on(s@),
            None => false,
        };
        if on {
            rest.push(flags.last().0@)
        } else {
            rest
        }
    }
}

/// The legacy interfaces whose service is enabled, each once, in ascending order.
pub fn enabled_interfaces(flags: &[(String, Option<String>)]) -> (r: Vec<String>)
    ensures
        texts(r@).to_multiset() == distinct_nonempty(enabled_names(flags@)).to_multiset(),
        sorted_texts(texts(r@)),
{
    let mut names: Vec<String> = Vec::new();
    let mut i: usize = 0;
    assert(flags@.take(0) =~= Seq::<(String, Option<String>)>::empty());
    while i < flags.len()
        invariant
            i <= flags@.len(),
            texts(names@) == enabled_names(flags@.take(i as int)),
        decreases flags@.len() - i,
    {
        proof {
            assert(flags@.take(i + 1).drop_last() =~= flags@.take(i as int));
            assert(flags@.take(i + 1).last() == flags@[i as int]);
        }
        if is_enabled(&flags[i].1) {
            names.push(flags[i].0.clone());
            assert(texts(names@) =~= enabled_names(flags@.take(i + 1)));
        }
        i = i + 1;
    }
    assert(flags@.take(flags@.len() as int) =~= flags@);
    let mut out = dedupe_preserve_order(names.as_slice());
    sort_texts(&mut out);
    out
}

/// A listening-interface list merged with new interfaces: every item of the old comma list and
/// every new interface, each once, in ascending order.
pub fn merge_interface_list(existing: &Option<String>, new_ifaces: &[String]) -> (r: Vec<String>)
    ensures
        texts(r@).to_multiset() == distinct_nonempty(
            match existing {
                Some(s) => tokens(s@, Delims::Comma),
                None => Seq::empty(),
            } + texts(new_ifaces@),
        ).to_multiset(),
        sorted_texts(texts(r@)),
{
    let mut all: Vec<String> = match existing {
        Some(s) => split_items(s.as_str(), Delims::Comma),
        None => Vec::new(),
    };
    let ghost first = texts(all@);
    let mut i: usize = 0;
    while i < new_ifaces.len()
        invariant
            i <= new_ifaces@.len(),
            texts(all@) == first + texts(new_ifaces@).take(i as int),
        decreases new_ifaces@.len() - i,
    {
        let ghost before = all@;
        all.push(new_ifaces[i].clone());
        proof {
            assert(texts(new_ifaces@).take(i + 1) =~= texts(new_ifaces@).take(i as int).push(
                new_ifaces@[i as int]@,
            ));
            assert(texts(all@) =~= texts(before).push(new_ifaces@[i as int]@));
            assert(texts(all@) =~= first + texts(new_ifaces@).take(i + 1));
        }
        i = i + 1;
    }
    assert(texts(new_ifaces@).take(new_ifaces@.len() as int) =~= texts(new_ifaces@));
    assert(texts(all@) == first + texts(new_ifaces@));
    let mut out = dedupe_preserve_order(all.as_slice());
    sort_texts(&mut out);
    out
}


/// Refuses to switch the backend on when the legacy service was on nowhere, which would leave
/// two servers or none.
pub fn ensure_isc_was_enabled(expected_v4: &[String], expected_v6: &[String]) -> (r: Result<
    (),
    MigrationError,
>)
    ensures
        r is Err <==> expected_v4@.len() == 0 && expected_v6@.len() == 0,
        r is Err ==> r->Err_0@ is LegacyAlreadyDisabled,
{
    if expected_v4.len() == 0 && expected_v6.len() == 0 {
        return Err(MigrationError::LegacyAlreadyDisabled);
    }
    Ok(())
}

} // verus!
