//! The duplicate ledger: which identities are already taken in the target.
//!
//! A record claims a few keys (its address, and a hardware id or DUID); a key is a value
//! tagged with the set it belongs to. A claim is refused when any of its keys is taken, and an
//! accepted claim takes all of its keys at once, so later claims of the same batch are checked
//! against it too.

use vstd::prelude::*;

verus! {

/// The address set.
pub const SLOT_ADDRESS: u8 = 0;

/// The hardware-address set.
pub const SLOT_HARDWARE: u8 = 1;

/// The client-identifier (DUID) set.
pub const SLOT_CLIENT: u8 = 2;

/// A tagged identity: the set it belongs to and its text.
pub type Key = (u8, String);

/// The value of a key.
pub open spec fn key_view(k: Key) -> (u8, Seq<char>) {
    (k.0, k.1@)
}

/// The values of a list of keys.
pub open spec fn keys_view(ks: Seq<Key>) -> Seq<(u8, Seq<char>)> {
    ks.map_values(|k: Key| key_view(k))
}

/// The values of a list of claims.
pub open spec fn claims_view(cs: Seq<Vec<Key>>) -> Seq<Seq<(u8, Seq<char>)>> {
    cs.map_values(|c: Vec<Key>| keys_view(c@))
}

/// Some key of the claim is already taken.
pub open spec fn clashes(claim: Seq<(u8, Seq<char>)>, taken: Seq<(u8, Seq<char>)>) -> bool {
    exists|i: int| 0 <= i < claim.len() && taken.contains(#[trigger] claim[i])
}

/// Running the claims in order against the ledger `seed`: for each claim whether it is
/// accepted, and the keys taken at the end.
pub open spec fn admitted(
    claims: Seq<Seq<(u8, Seq<char>)>>,
    seed: Seq<(u8, Seq<char>)>,
) -> (Seq<bool>, Seq<(u8, Seq<char>)>)
    decreases claims.len(),
{
    if claims.len() == 0 {
        (Seq::empty(), seed)
    } else {
        let before = admitted(claims.drop_last(), seed);
        if clashes(claims.last(), before.1) {
            (before.0.push(false), before.1)
        } else {
            (before.0.push(true), before.1 + claims.last())
        }
    }
}

/// How many claims are accepted.
pub open spec fn count_true(v: Seq<bool>) -> nat
    decreases v.len(),
{
    if v.len() == 0 {
        0
    } else {
        count_true(v.drop_last()) + if v.last() {
            1nat
        } else {
            0nat
        }
    }
}

/// Whether some key of `claim` is in `taken`.
fn clash(claim: &Vec<Key>, taken: &Vec<Key>) -> (r: bool)
    ensures
        r == clashes(keys_view(claim@), keys_view(taken@)),
{
    let ghost c = keys_view(claim@);
    let ghost t = keys_view(taken@);
    let mut i: usize = 0;
    while i < claim.len()
        invariant
            i <= claim@.len(),
            c == keys_view(claim@),
            t == keys_view(taken@),
            forall|x: int| 0 <= x < i ==> !t.contains(#[trigger] c[x]),
        decreases claim@.len() - i,
    {
        let mut j: usize = 0;
        while j < taken.len()
            invariant
                j <= taken@.len(),
                i < claim@.len(),
                c == keys_view(claim@),
                t == keys_view(taken@),
                forall|y: int| 0 <= y < j ==> t[y] != c[i as int],
            decreases taken@.len() - j,
        {
            if claim[i].0 == taken[j].0 && claim[i].1 == taken[j].1 {
                proof {
                    assert(t[j as int] == c[i as int]);
                    assert(t.contains(c[i as int]));
                }
                return true;
            }
            j = j + 1;
        }
        proof {
            assert forall|y: int| 0 <= y < t.len() implies t[y] != c[i as int] by {
                assert(t[y] == key_view(taken@[y]));
                assert(c[i as int] == key_view(claim@[i as int]));
            }
        }
        i = i + 1;
    }
    false
}

/// Runs the claims in order (see [`admitted`]): returns which are accepted and adds the keys
/// of the accepted ones to `taken`.
pub fn run_claims(claims: &Vec<Vec<Key>>, taken: &mut Vec<Key>) -> (r: Vec<bool>)
    ensures
        (r@, keys_view(final(taken)@)) == admitted(claims_view(claims@), keys_view(old(taken)@)),
{
    let ghost seed = keys_view(old(taken)@);
    let ghost cv = claims_view(claims@);
    let mut r: Vec<bool> = Vec::new();
    let mut k: usize = 0;
    while k < claims.len()
        invariant
            k <= claims@.len(),
            cv == claims_view(claims@),
            (r@, keys_view(taken@)) == admitted(cv.take(k as int), seed),
        decreases claims@.len() - k,
    {
        proof {
            assert(cv.take(k + 1).drop_last() =~= cv.take(k as int));
            assert(cv.take(k + 1).last() == keys_view(claims@[k as int]@));
        }
        let claim = &claims[k];
        if clash(claim, taken) {
            r.push(false);
        } else {
            r.push(true);
            let ghost before = taken@;
            let mut i: usize = 0;
            while i < claim.len()
                invariant
                    i <= claim@.len(),
                    taken@ == before + claim@.take(i as int),
                decreases claim@.len() - i,
            {
                taken.push((claim[i].0, claim[i].1.clone()));
                proof {
                    assert(claim@.take(i + 1) =~= claim@.take(i as int).push(claim@[i as int]));
                }
                i = i + 1;
            }
            proof {
                assert(claim@.take(claim@.len() as int) =~= claim@);
                assert(keys_view(taken@) =~= keys_view(before) + keys_view(claim@));
            }
        }
        k = k + 1;
    }
    assert(cv.take(claims@.len() as int) =~= cv);
    r
}


/// The ledger only grows: whatever was taken stays taken.
pub proof fn lemma_ledger_grows(claims: Seq<Seq<(u8, Seq<char>)>>, seed: Seq<(u8, Seq<char>)>)
    ensures
        admitted(claims, seed).0.len() == claims.len(),
        forall|x: (u8, Seq<char>)| seed.contains(x) ==> #[trigger] admitted(claims, seed).1.contains(x),
    decreases claims.len(),
{
    if claims.len() > 0 {
        lemma_ledger_grows(claims.drop_last(), seed);
        let before = admitted(claims.drop_last(), seed);
        assert forall|x: (u8, Seq<char>)| seed.contains(x) implies #[trigger] admitted(
            claims,
            seed,
        ).1.contains(x) by {
            assert(before.1.contains(x));
            let k = choose|k: int| 0 <= k < before.1.len() && before.1[k] == x;
            assert((before.1 + claims.last())[k] == x);
        }
    }
}

/// A claim that clashes with a ledger clashes with every ledger holding its keys.
proof fn lemma_clash_widens(
    claim: Seq<(u8, Seq<char>)>,
    small: Seq<(u8, Seq<char>)>,
    big: Seq<(u8, Seq<char>)>,
)
    requires
        clashes(claim, small),
        forall|x: (u8, Seq<char>)| small.contains(x) ==> #[trigger] big.contains(x),
    ensures
        clashes(claim, big),
{
    let i = choose|i: int| 0 <= i < claim.len() && small.contains(#[trigger] claim[i]);
    assert(big.contains(claim[i]));
}

/// After a run, every claim of the batch clashes with the ledger that the run left.
pub proof fn lemma_all_claims_clash(claims: Seq<Seq<(u8, Seq<char>)>>, seed: Seq<(u8, Seq<char>)>)
    requires
        forall|i: int| 0 <= i < claims.len() ==> (#[trigger] claims[i]).len() > 0,
    ensures
        forall|i: int| 0 <= i < claims.len() ==> clashes(#[trigger] claims[i], admitted(claims, seed).1),
    decreases claims.len(),
{
    if claims.len() > 0 {
        let front = claims.drop_last();
        assert forall|i: int| 0 <= i < front.len() implies (#[trigger] front[i]).len() > 0 by {
            assert(front[i] == claims[i]);
        }
        lemma_all_claims_clash(front, seed);
        let before = admitted(front, seed).1;
        let after = admitted(claims, seed).1;
        assert forall|x: (u8, Seq<char>)| before.contains(x) implies #[trigger] after.contains(x) by {
            let k = choose|k: int| 0 <= k < before.len() && before[k] == x;
            assert((before + claims.last())[k] == x);
        }
        assert forall|i: int| 0 <= i < claims.len() implies clashes(
            #[trigger] claims[i],
            after,
        ) by {
            if i < front.len() {
                assert(front[i] == claims[i]);
                lemma_clash_widens(claims[i], before, after);
            } else if !clashes(claims.last(), before) {
                let last = claims.last();
                assert(last.len() > 0);
                assert((before + last)[before.len() as int] == last[0]);
                assert(after.contains(last[0]));
            } else {
                lemma_clash_widens(claims.last(), before, after);
            }
        }
    }
}

/// Claims that all clash with the seed are all refused.
proof fn lemma_clashing_refused(claims: Seq<Seq<(u8, Seq<char>)>>, seed: Seq<(u8, Seq<char>)>)
    requires
        forall|i: int| 0 <= i < claims.len() ==> clashes(#[trigger] claims[i], seed),
    ensures
        admitted(claims, seed).0.len() == claims.len(),
        forall|i: int| 0 <= i < claims.len() ==> !(#[trigger] admitted(claims, seed).0[i]),
    decreases claims.len(),
{
    lemma_ledger_grows(claims, seed);
    if claims.len() > 0 {
        let front = claims.drop_last();
        assert forall|i: int| 0 <= i < front.len() implies clashes(#[trigger] front[i], seed) by {
            assert(front[i] == claims[i]);
        }
        lemma_clashing_refused(front, seed);
        lemma_ledger_grows(front, seed);
        lemma_clash_widens(claims.last(), seed, admitted(front, seed).1);
    }
}

/// Running a batch a second time, against any ledger that still holds every key the first run
/// left, accepts no claim, provided every claim names at least one key.
pub proof fn lemma_rerun_accepts_nothing(
    claims: Seq<Seq<(u8, Seq<char>)>>,
    seed: Seq<(u8, Seq<char>)>,
    later: Seq<(u8, Seq<char>)>,
)
    requires
        forall|i: int| 0 <= i < claims.len() ==> (#[trigger] claims[i]).len() > 0,
        forall|x: (u8, Seq<char>)| admitted(claims, seed).1.contains(x) ==> #[trigger] later.contains(x),
    ensures
        count_true(admitted(claims, later).0) == 0,
        forall|i: int| 0 <= i < claims.len() ==> !(#[trigger] admitted(claims, later).0[i]),
{
    let ledger = admitted(claims, seed).1;
    lemma_all_claims_clash(claims, seed);
    assert forall|i: int| 0 <= i < claims.len() implies clashes(#[trigger] claims[i], later) by {
        lemma_clash_widens(claims[i], ledger, later);
    }
    lemma_clashing_refused(claims, later);
    lemma_count_none(admitted(claims, later).0);
}

/// A sequence with no `true` counts zero.
proof fn lemma_count_none(v: Seq<bool>)
    requires
        forall|i: int| 0 <= i < v.len() ==> !(#[trigger] v[i]),
    ensures
        count_true(v) == 0,
    decreases v.len(),
{
    if v.len() > 0 {
        let front = v.drop_last();
        assert forall|i: int| 0 <= i < front.len() implies !(#[trigger] front[i]) by {
            assert(front[i] == v[i]);
        }
        lemma_count_none(front);
    }
}

} // verus!
