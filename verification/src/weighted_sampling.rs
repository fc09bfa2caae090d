//! Building blocks of a stake-weighted committee election.
//!
//! The election draws one random number per eligible participant from a
//! deterministic generator seeded by a 32-byte seed, turns it into a key that grows
//! with the participant's voting power, and elects the participants with the
//! largest keys. This module holds the participants, the generator, the seed
//! mixing, and the ranking of participants by key.

use vstd::prelude::*;

verus! {

/// A candidate in a validator election, carrying its voting power (stake).
#[derive(Clone, Debug, PartialEq, Eq)]
pub struct Participant<Id> {
    pub id: Id,
    pub voting_power: u64,
}

impl<Id> Participant<Id> {
    /// A participant with the given id and voting power.
    pub fn new(id: Id, voting_power: u64) -> (p: Self)
        ensures
            p.id == id,
            p.voting_power == voting_power,
    {
        Participant { id, voting_power }
    }
}

/// The increment of the SplitMix64 state.
pub const SPLITMIX_GAMMA: u64 = 0x9E37_79B9_7F4A_7C15;

/// First multiplier of the SplitMix64 output function and of the seed mixing.
pub const MIX_MUL_1: u64 = 0xBF58_476D_1CE4_E5B9;

/// Second multiplier of the SplitMix64 output function.
pub const MIX_MUL_2: u64 = 0x94D0_49BB_1331_11EB;

/// The SplitMix64 output function applied to the state `z`.
pub open spec fn splitmix_output(z: u64) -> u64 {
    let a = (z ^ (z >> 30u64)).wrapping_mul(MIX_MUL_1);
    let b = (a ^ (a >> 27u64)).wrapping_mul(MIX_MUL_2);
    b ^ (b >> 31u64)
}

/// Deterministic 64-bit pseudo-random generator (SplitMix64).
///
/// For reproducibility only: an adversary who can predict the stream can grind the
/// seed, so a real election should draw from a cryptographically secure generator.
pub struct SplitMix64 {
    state: u64,
}

impl SplitMix64 {
    /// The generator's state.
    pub closed spec fn state(&self) -> u64 {
        self.state
    }

    /// A generator whose state is `seed`.
    pub fn new(seed: u64) -> (g: Self)
        ensures
            g.state() == seed,
    {
        SplitMix64 { state: seed }
    }

    /// Advances the state by the increment and returns the output for the new state.
    pub fn next_u64(&mut self) -> (r: u64)
        ensures
            final(self).state() == old(self).state().wrapping_add(SPLITMIX_GAMMA),
            r == splitmix_output(final(self).state()),
    {
        self.state = self.state.wrapping_add(SPLITMIX_GAMMA);
        let z = self.state;
        let a = (z ^ (z >> 30u64)).wrapping_mul(MIX_MUL_1);
        let b = (a ^ (a >> 27u64)).wrapping_mul(MIX_MUL_2);
        b ^ (b >> 31u64)
    }
}

/// The little-endian 64-bit word made of the bytes `8 * i .. 8 * i + 8` of `s`.
pub open spec fn le_word(s: Seq<u8>, i: int) -> u64 {
    (s[8 * i] as u64) | ((s[8 * i + 1] as u64) << 8u64) | ((s[8 * i + 2] as u64) << 16u64) | ((s[8
        * i + 3] as u64) << 24u64) | ((s[8 * i + 4] as u64) << 32u64) | ((s[8 * i + 5] as u64)
        << 40u64) | ((s[8 * i + 6] as u64) << 48u64) | ((s[8 * i + 7] as u64) << 56u64)
}

/// One step of the seed mixing: folds the word `w` into the hash `h`.
pub open spec fn absorb(h: u64, w: u64) -> u64 {
    let m = (h ^ w).wrapping_mul(MIX_MUL_1);
    m ^ (m >> 29u64)
}

/// The hash of the first `k` words of `s`, starting from the increment.
pub open spec fn seed_hash(s: Seq<u8>, k: nat) -> u64
    decreases k,
{
    if k == 0 {
        SPLITMIX_GAMMA
    } else {
        absorb(seed_hash(s, (k - 1) as nat), le_word(s, k - 1))
    }
}

/// Mixes the whole 32-byte seed into a single `u64`, to seed the generator.
pub fn seed_to_u64(seed: &[u8; 32]) -> (h: u64)
    ensures
        h == seed_hash(seed@, 4),
{
    let mut h: u64 = SPLITMIX_GAMMA;
    let mut i: usize = 0;
    while i < 4
        invariant
            i <= 4,
            seed@.len() == 32,
            h == seed_hash(seed@, i as nat),
        decreases 4 - i,
    {
        let o = 8 * i;
        let w: u64 = (seed[o] as u64) | ((seed[o + 1] as u64) << 8u64) | ((seed[o + 2] as u64)
            << 16u64) | ((seed[o + 3] as u64) << 24u64) | ((seed[o + 4] as u64) << 32u64) | ((seed[o
            + 5] as u64) << 40u64) | ((seed[o + 6] as u64) << 48u64) | ((seed[o + 7] as u64)
            << 56u64);
        assert(w == le_word(seed@, i as int));
        let m = (h ^ w).wrapping_mul(MIX_MUL_1);
        h = m ^ (m >> 29u64);
        i = i + 1;
    }
    h
}

/// Candidate `a` ranks before candidate `b`: its key is larger, or the keys are equal
/// and `a` comes first.
pub open spec fn ranks_before(keys: Seq<u64>, a: int, b: int) -> bool {
    keys[a] > keys[b] || (keys[a] == keys[b] && a < b)
}

/// Candidate `i` may be elected: it has voting power.
pub open spec fn eligible<Id>(ps: Seq<Participant<Id>>, i: int) -> bool {
    0 <= i < ps.len() && ps[i].voting_power > 0
}

/// `sel` is the committee of size `k`: the eligible candidates of highest rank, at
/// most `k` of them, in rank order, and no eligible candidate left out while a seat
/// is free or while it ranks before a chosen one.
pub open spec fn is_committee<Id>(ps: Seq<Participant<Id>>, keys: Seq<u64>, k: nat, sel: Seq<int>) -> bool {
    &&& sel.len() <= k
    &&& forall|j: int| 0 <= j < sel.len() ==> eligible(ps, #[trigger] sel[j])
    &&& forall|a: int, b: int| 0 <= a < b < sel.len() ==> ranks_before(keys, sel[a], sel[b])
    &&& forall|i: int|
        #![trigger eligible(ps, i)]
        eligible(ps, i) && !sel.contains(i) ==> sel.len() == k && forall|j: int|
            0 <= j < sel.len() ==> ranks_before(keys, #[trigger] sel[j], i)
}

/// The indices as integers.
pub open spec fn as_ints(v: Seq<usize>) -> Seq<int> {
    v.map_values(|x: usize| x as int)
}

/// Elects, among the participants with voting power, the `committee_size` ones with the
/// largest keys; equal keys go to the participant that comes first. Returns their
/// indices in rank order. `keys[i]` is the key of `participants[i]`; the keys of
/// participants without voting power are ignored.
pub fn rank_committee<Id>(participants: &[Participant<Id>], keys: &[u64], committee_size: usize) -> (sel: Vec<usize>)
    requires
        keys@.len() == participants@.len(),
    ensures
        is_committee(participants@, keys@, committee_size as nat, as_ints(sel@)),
{
    let n = participants.len();
    let mut chosen: Vec<bool> = Vec::new();
    for _i in 0..n
        invariant
            chosen@.len() == _i,
            forall|j: int| 0 <= j < _i ==> !chosen@[j],
    {
        chosen.push(false);
    }
    let mut sel: Vec<usize> = Vec::new();
    let mut done = false;
    while sel.len() < committee_size && !done
        invariant
            n == participants@.len(),
            n == keys@.len(),
            chosen@.len() == n,
            sel@.len() <= committee_size,
            forall|j: int| 0 <= j < sel@.len() ==> eligible(participants@, #[trigger] sel@[j] as int),
            forall|j: int| 0 <= j < sel@.len() ==> chosen@[#[trigger] sel@[j] as int],
            forall|i: int| 0 <= i < n && chosen@[i] ==> as_ints(sel@).contains(i),
            forall|a: int, b: int| 0 <= a < b < sel@.len() ==> ranks_before(keys@, sel@[a] as int, sel@[b] as int),
            forall|i: int|
                #![trigger eligible(participants@, i)]
                eligible(participants@, i) && !chosen@[i] ==> forall|j: int|
                    0 <= j < sel@.len() ==> ranks_before(keys@, #[trigger] sel@[j] as int, i),
            done ==> forall|i: int| #![trigger eligible(participants@, i)] eligible(participants@, i) ==> chosen@[i],
        decreases committee_size - sel@.len(), if done { 0int } else { 1int },
    {
        // Find the best candidate not chosen yet.
        let mut best: Option<usize> = None;
        for i in 0..n
            invariant
                n == participants@.len(),
                n == keys@.len(),
                chosen@.len() == n,
                best matches Some(b) ==> b < i && eligible(participants@, b as int) && !chosen@[b as int],
                forall|j: int|
                    0 <= j < i && eligible(participants@, j) && !chosen@[j] ==> (best matches Some(b) && (
                    b == j || ranks_before(keys@, b as int, j))),
        {
            if participants[i].voting_power > 0 && !chosen[i] {
                match best {
                    Some(b) => {
                        if keys[i] > keys[b] {
                            best = Some(i);
                        }
                    },
                    None => {
                        best = Some(i);
                    },
                }
            }
        }
        match best {
            Some(b) => {
                let ghost old_sel = sel@;
                let ghost old_chosen = chosen@;
                chosen.set(b, true);
                sel.push(b);
                proof {
                    assert(as_ints(sel@) == as_ints(old_sel).push(b as int));
                    assert forall|i: int| 0 <= i < n && chosen@[i] implies as_ints(sel@).contains(i) by {
                        if i != b {
                            assert(old_chosen[i]);
                            let k = choose|k: int| 0 <= k < as_ints(old_sel).len() && as_ints(old_sel)[k] == i;
                            assert(as_ints(sel@)[k] == i);
                        } else {
                            assert(as_ints(sel@)[old_sel.len() as int] == i);
                        }
                    }
                }
            },
            None => {
                done = true;
            },
        }
    }
    proof {
        let s = as_ints(sel@);
        assert forall|i: int| #![trigger eligible(participants@, i)] eligible(participants@, i) && !s.contains(i) implies s.len() == committee_size as nat && forall|j: int|
            0 <= j < s.len() ==> ranks_before(keys@, #[trigger] s[j], i) by {
            if chosen@[i] {
                assert(s.contains(i));
            }
        }
        assert forall|j: int| 0 <= j < s.len() implies eligible(participants@, #[trigger] s[j]) by {
            assert(eligible(participants@, sel@[j] as int));
        }
    }
    sel
}

/// The indices of the candidates that may be elected.
pub open spec fn eligible_set<Id>(ps: Seq<Participant<Id>>) -> Set<int> {
    Set::new(|i: int| eligible(ps, i))
}

/// A committee holds distinct candidates, all with voting power, and as many as the
/// smaller of the committee size and the number of candidates with voting power: all
/// of them when the committee size exceeds their number.
pub proof fn law_committee_size<Id>(ps: Seq<Participant<Id>>, keys: Seq<u64>, k: nat, sel: Seq<int>)
    requires
        is_committee(ps, keys, k, sel),
    ensures
        sel.no_duplicates(),
        sel.to_set().subset_of(eligible_set(ps)),
        sel.len() == if eligible_set(ps).len() < k { eligible_set(ps).len() } else { k },
        eligible_set(ps).len() <= k ==> sel.to_set() == eligible_set(ps),
{
    broadcast use vstd::seq_lib::seq_to_set_is_finite;
    let e = eligible_set(ps);
    assert forall|a: int, b: int| 0 <= a < sel.len() && 0 <= b < sel.len() && a != b implies sel[a] != sel[b] by {
        if a < b {
            assert(ranks_before(keys, sel[a], sel[b]));
        } else {
            assert(ranks_before(keys, sel[b], sel[a]));
        }
    }
    sel.unique_seq_to_set();
    assert forall|x: int| sel.to_set().contains(x) implies e.contains(x) by {
        let j = choose|j: int| 0 <= j < sel.len() && sel[j] == x;
        assert(eligible(ps, sel[j]));
    }
    vstd::set_lib::lemma_int_range(0, ps.len() as int);
    assert(e.subset_of(vstd::set_lib::set_int_range(0, ps.len() as int)));
    vstd::set_lib::lemma_len_subset(e, vstd::set_lib::set_int_range(0, ps.len() as int));
    vstd::set_lib::lemma_len_subset(sel.to_set(), e);
    if sel.len() < k {
        assert forall|x: int| e.contains(x) implies sel.to_set().contains(x) by {
            assert(eligible(ps, x));
            if !sel.contains(x) {
                assert(sel.len() == k);
            }
        }
        assert(sel.to_set() =~= e);
    } else if e.len() <= k {
        vstd::set_lib::lemma_subset_equality(sel.to_set(), e);
    }
}

/// The committee is determined by the participants, the keys and the size: two
/// committees for the same ones are equal.
pub proof fn law_committee_is_unique<Id>(ps: Seq<Participant<Id>>, keys: Seq<u64>, k: nat, s: Seq<int>, t: Seq<int>)
    requires
        is_committee(ps, keys, k, s),
        is_committee(ps, keys, k, t),
    ensures
        s == t,
    decreases s.len() + t.len(),
{
    law_committee_size(ps, keys, k, s);
    law_committee_size(ps, keys, k, t);
    assert(s.len() == t.len());
    assert forall|i: int| 0 <= i < s.len() implies s[i] == t[i] by {
        law_committee_element(ps, keys, k, s, t, i);
    }
    assert(s =~= t);
}

/// Raising the committee size only appends members: the committee of size `k1` is the
/// start of the committee of any size `k2 >= k1` for the same participants and keys, so
/// the order of the members is the order in which they win their seats.
pub proof fn law_committee_prefix<Id>(ps: Seq<Participant<Id>>, keys: Seq<u64>, k1: nat, k2: nat, s1: Seq<int>, s2: Seq<int>)
    requires
        k1 <= k2,
        is_committee(ps, keys, k1, s1),
        is_committee(ps, keys, k2, s2),
    ensures
        s1.len() <= s2.len(),
        s1 == s2.take(s1.len() as int),
{
    law_committee_size(ps, keys, k1, s1);
    law_committee_size(ps, keys, k2, s2);
    let m = s1.len() as int;
    let t = s2.take(m);
    assert(is_committee(ps, keys, k1, t)) by {
        assert forall|j: int| 0 <= j < t.len() implies eligible(ps, #[trigger] t[j]) by {
            assert(t[j] == s2[j]);
        }
        assert forall|a: int, b: int| 0 <= a < b < t.len() implies ranks_before(keys, t[a], t[b]) by {
            assert(t[a] == s2[a] && t[b] == s2[b]);
        }
        assert forall|i: int|
            #![trigger eligible(ps, i)]
            eligible(ps, i) && !t.contains(i) implies t.len() == k1 && forall|j: int|
                0 <= j < t.len() ==> ranks_before(keys, #[trigger] t[j], i) by {
            if s2.contains(i) {
                let p = choose|p: int| 0 <= p < s2.len() && s2[p] == i;
                if p < m {
                    assert(t[p] == i);
                }
                assert(m < s2.len());
                assert(t.len() == k1);
                assert forall|j: int| 0 <= j < t.len() implies ranks_before(keys, #[trigger] t[j], i) by {
                    assert(t[j] == s2[j]);
                }
            } else {
                assert(s2.len() == k2);
                assert(eligible_set(ps).contains(i));
                assert(!s2.to_set().contains(i));
                assert(s2.to_set() != eligible_set(ps));
                assert(t.len() == k1);
                assert forall|j: int| 0 <= j < t.len() implies ranks_before(keys, #[trigger] t[j], i) by {
                    assert(t[j] == s2[j]);
                }
            }
        }
    }
    law_committee_is_unique(ps, keys, k1, s1, t);
}

/// The `i`-th members of two committees for the same participants, keys and size are
/// the same candidate.
proof fn law_committee_element<Id>(ps: Seq<Participant<Id>>, keys: Seq<u64>, k: nat, s: Seq<int>, t: Seq<int>, i: int)
    requires
        is_committee(ps, keys, k, s),
        is_committee(ps, keys, k, t),
        s.len() == t.len(),
        0 <= i < s.len(),
    ensures
        s[i] == t[i],
    decreases i,
{
    assert forall|j: int| 0 <= j < i implies s[j] == t[j] by {
        law_committee_element(ps, keys, k, s, t, j);
    }
    if s[i] != t[i] {
        // Say s[i] ranks before t[i]; then s[i] is not among t's first i members, so it
        // is in t after position i, or not in t at all; both contradict t's order.
        let x = s[i];
        let y = t[i];
        assert(eligible(ps, x));
        assert(eligible(ps, y));
        if ranks_before(keys, x, y) {
            if t.contains(x) {
                let j = choose|j: int| 0 <= j < t.len() && t[j] == x;
                if j < i {
                    assert(s[j] == t[j]);
                    assert(ranks_before(keys, s[j], s[i]));
                } else {
                    assert(ranks_before(keys, t[i], t[j]));
                }
            } else {
                assert(ranks_before(keys, t[i], x));
            }
        } else {
            if s.contains(y) {
                let j = choose|j: int| 0 <= j < s.len() && s[j] == y;
                if j < i {
                    assert(s[j] == t[j]);
                    assert(ranks_before(keys, t[j], t[i]));
                } else {
                    assert(ranks_before(keys, s[i], s[j]));
                }
            } else {
                assert(ranks_before(keys, s[i], y));
            }
        }
    }
}

} // verus!
