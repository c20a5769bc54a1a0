//! Pairing players for ranked games: players are ordered by rating and each
//! is paired with a random unpaired player at most five places away.

use vstd::prelude::*;
use rand::rngs::{ThreadRng, Xoshiro256PlusPlus};

verus! {

/// The random number generator that orders and pairs the players.
#[verifier::external_type_specification]
#[verifier::external_body]
pub struct ExXoshiro256PlusPlus(Xoshiro256PlusPlus);

/// The thread's generator, which seeds the pairing generator.
#[verifier::external_type_specification]
#[verifier::external_body]
pub struct ExThreadRng(ThreadRng);

/// The thread's generator; a wrapper of `rand::rng`. Nothing is stated of it.
#[verifier::external_body]
fn thread_generator() -> ThreadRng {
    rand::rng()
}

/// A generator seeded from `seed`; a wrapper of `SeedableRng::from_rng`.
/// Nothing is stated of the seed it draws.
#[verifier::external_body]
fn generator_from(seed: &mut ThreadRng) -> Xoshiro256PlusPlus {
    <Xoshiro256PlusPlus as rand::SeedableRng>::from_rng(seed)
}

/// Puts the indices in a random order; a wrapper of `SliceRandom::shuffle`,
/// whose source only swaps elements, so the same indices remain.
#[verifier::external_body]
fn shuffle_indices(v: &mut Vec<usize>, rng: &mut Xoshiro256PlusPlus)
    ensures
        final(v)@.to_multiset() == old(v)@.to_multiset(),
{
    rand::seq::SliceRandom::shuffle(v.as_mut_slice(), rng);
}

/// A random index below `n`; a wrapper of `RngExt::random_range` on
/// `0..n`, which panics on an empty range and otherwise samples from it.
#[verifier::external_body]
fn random_index(rng: &mut Xoshiro256PlusPlus, n: usize) -> (i: usize)
    requires
        n > 0,
    ensures
        i < n,
{
    rand::RngExt::random_range(rng, 0..n)
}

/// A player waiting for a ranked game with the robot they compete with.
#[derive(Debug, Clone, Copy)]
pub struct MatchmakingEntry {
    pub id: u128,
    pub elo: i32,
    pub robot_id: u128,
    matched: bool,
}

/// What an entry holds.
pub ghost struct EntryView {
    pub id: u128,
    pub elo: i32,
    pub robot_id: u128,
    pub matched: bool,
}

impl EntryView {
    /// The entry once paired.
    pub open spec fn paired(self) -> EntryView {
        EntryView { id: self.id, elo: self.elo, robot_id: self.robot_id, matched: true }
    }
}

impl View for MatchmakingEntry {
    type V = EntryView;

    closed spec fn view(&self) -> EntryView {
        EntryView { id: self.id, elo: self.elo, robot_id: self.robot_id, matched: self.matched }
    }
}

impl MatchmakingEntry {
    /// A player that has not been paired yet.
    pub fn new(id: u128, elo: i32, robot_id: u128) -> (e: Self)
        ensures
            e@ == (EntryView { id, elo, robot_id, matched: false }),
    {
        Self { id, elo, robot_id, matched: false }
    }
}

impl PartialEq for MatchmakingEntry {
    fn eq(&self, other: &Self) -> (r: bool)
        ensures
            r == (self@.id == other@.id),
    {
        self.id == other.id
    }
}

impl vstd::std_specs::cmp::PartialEqSpecImpl for MatchmakingEntry {
    open spec fn obeys_eq_spec() -> bool {
        true
    }

    closed spec fn eq_spec(&self, other: &Self) -> bool {
        self.id == other.id
    }
}

impl Eq for MatchmakingEntry {}

/// Ordered by rating, lowest first.
pub open spec fn sorted_by_elo(s: Seq<MatchmakingEntry>) -> bool {
    forall|i: int, j: int| 0 <= i <= j < s.len() ==> s[i]@.elo <= s[j]@.elo
}

/// The first index of the window of possible opponents of `index`.
pub open spec fn window_lo(index: int) -> int {
    if index >= 5 {
        index - 5
    } else {
        0
    }
}

/// One past the last index of the window of possible opponents of `index`.
pub open spec fn window_hi(index: int, len: int) -> int {
    if index + 6 < len {
        index + 6
    } else {
        len
    }
}

/// Whether `j` may be paired with `index`: another unpaired player at most
/// five places away.
pub open spec fn is_candidate(ranks: Seq<MatchmakingEntry>, index: int, j: int) -> bool {
    &&& window_lo(index) <= j < window_hi(index, ranks.len() as int)
    &&& j != index
    &&& !ranks[j]@.matched
}

/// A queued player that is passed over: already paired, or without any
/// candidate.
pub open spec fn passed_over(ranks: Seq<MatchmakingEntry>, index: int) -> bool {
    ranks[index]@.matched || forall|j: int| !is_candidate(ranks, index, j)
}

/// The number of players marked as paired.
pub open spec fn matched_count(s: Seq<MatchmakingEntry>) -> nat
    decreases s.len(),
{
    if s.len() == 0 {
        0
    } else {
        matched_count(s.drop_last()) + if s.last()@.matched {
            1nat
        } else {
            0nat
        }
    }
}

/// No more players are paired than there are players.
pub proof fn lemma_matched_count_at_most_len(s: Seq<MatchmakingEntry>)
    ensures
        matched_count(s) <= s.len(),
    decreases s.len(),
{
    if s.len() > 0 {
        lemma_matched_count_at_most_len(s.drop_last());
    }
}

/// Pairing makes at most half as many pairs as there are players: when
/// `pairs` calls of `next_match` that returned a pair led from `start` to
/// `end`, each adding two paired players, then `pairs` is at most half the
/// number of players.
pub proof fn lemma_pairs_at_most_half(start: Seq<MatchmakingEntry>, end: Seq<MatchmakingEntry>, pairs: nat)
    requires
        end.len() == start.len(),
        matched_count(end) == matched_count(start) + 2 * pairs,
    ensures
        pairs <= start.len() / 2,
{
    lemma_matched_count_at_most_len(end);
}

proof fn lemma_matched_count_update(s: Seq<MatchmakingEntry>, i: int, x: MatchmakingEntry)
    requires
        0 <= i < s.len(),
    ensures
        matched_count(s.update(i, x)) + (if s[i]@.matched {
            1int
        } else {
            0int
        }) == matched_count(s) + (if x@.matched {
            1int
        } else {
            0int
        }),
    decreases s.len(),
{
    let u = s.update(i, x);
    if i < s.len() - 1 {
        assert(u.drop_last() =~= s.drop_last().update(i, x));
        lemma_matched_count_update(s.drop_last(), i, x);
        assert(u.last() == s.last());
    } else {
        assert(u.drop_last() =~= s.drop_last());
    }
}

/// `new` is `old` with players `index` and `o` marked as paired.
pub open spec fn paired_update(old: Seq<MatchmakingEntry>, new: Seq<MatchmakingEntry>, index: int, o: int) -> bool {
    &&& new.len() == old.len()
    &&& new[index]@ == old[index]@.paired()
    &&& new[o]@ == old[o]@.paired()
    &&& forall|i: int| 0 <= i < old.len() && i != index && i != o ==> #[trigger] new[i] == old[i]
}

/// Pairing two players changes nothing but their paired marks: everyone
/// paired before stays paired, the two are now paired, and the players keep
/// their ratings and order.
pub proof fn lemma_pairing_only_marks(
    old: Seq<MatchmakingEntry>,
    new: Seq<MatchmakingEntry>,
    index: int,
    o: int,
)
    requires
        0 <= index < old.len(),
        0 <= o < old.len(),
        paired_update(old, new, index, o),
    ensures
        forall|i: int| 0 <= i < old.len() && old[i]@.matched ==> (#[trigger] new[i])@.matched,
        new[index]@.matched && new[o]@.matched,
        forall|i: int| 0 <= i < old.len() ==> (#[trigger] new[i])@.elo == old[i]@.elo && new[i]@.id == old[i]@.id,
        sorted_by_elo(old) ==> sorted_by_elo(new),
{
    assert forall|i: int| 0 <= i < old.len() implies (#[trigger] new[i])@.elo == old[i]@.elo && new[i]@.id == old[i]@.id by {
        if i != index && i != o {
            assert(new[i] == old[i]);
        }
    }
    if sorted_by_elo(old) {
        assert forall|i: int, j: int| 0 <= i <= j < new.len() implies new[i]@.elo <= new[j]@.elo by {
            assert(new[i]@.elo == old[i]@.elo);
            assert(new[j]@.elo == old[j]@.elo);
        }
    }
}

/// Pairing two players passes over every player that was passed over
/// before: the paired marks only grow.
proof fn lemma_passed_over_persists(
    old: Seq<MatchmakingEntry>,
    new: Seq<MatchmakingEntry>,
    index: int,
    o: int,
    i: int,
)
    requires
        0 <= index < old.len(),
        0 <= o < old.len(),
        0 <= i < old.len(),
        paired_update(old, new, index, o),
        passed_over(old, i),
    ensures
        passed_over(new, i),
{
    lemma_pairing_only_marks(old, new, index, o);
    if !new[i]@.matched {
        assert(!old[i]@.matched);
        assert forall|j: int| !is_candidate(new, i, j) by {
            if is_candidate(new, i, j) {
                assert(!new[j]@.matched);
                assert(!old[j]@.matched);
                assert(is_candidate(old, i, j));
            }
        }
    }
}

/// The players in rating order and the order in which they look for an
/// opponent (taken from the back).
pub struct MatchmakingQueue {
    rng: Xoshiro256PlusPlus,
    ranks: Vec<MatchmakingEntry>,
    queue: Vec<usize>,
}

impl MatchmakingQueue {
    /// Every queued index names a player.
    pub closed spec fn wf(&self) -> bool {
        &&& forall|i: int| 0 <= i < self.queue@.len() ==> #[trigger] self.queue@[i] < self.ranks@.len()
        &&& forall|i: int|
            0 <= i < self.ranks@.len() && !self.queue@.contains(i as usize) ==> #[trigger] passed_over(self.ranks@, i)
    }

    /// The players in rating order.
    pub closed spec fn ranks(&self) -> Seq<MatchmakingEntry> {
        self.ranks@
    }

    /// The indices (into `ranks`) still to look for an opponent, the next
    /// one last.
    pub closed spec fn queue(&self) -> Seq<usize> {
        self.queue@
    }

    /// Orders the players by rating and every player's turn randomly.
    pub fn new(ranks: Vec<MatchmakingEntry>) -> (q: Self)
        ensures
            q.ranks().to_multiset() == ranks@.to_multiset(),
            sorted_by_elo(q.ranks()),
            stable_order(q.ranks(), ranks@),
            q.queue().to_multiset() == Seq::new(ranks@.len(), |i: int| i as usize).to_multiset(),
            q.queue().len() == ranks@.len(),
            q.wf(),
    {
        let ghost given = ranks@;
        let ranks = sort_by_elo(ranks);
        proof {
            given.to_multiset_ensures();
            ranks@.to_multiset_ensures();
            assert(ranks@.len() == given.len());
        }
        let mut queue: Vec<usize> = Vec::new();
        let mut i: usize = 0;
        while i < ranks.len()
            invariant
                0 <= i <= ranks@.len(),
                queue@ == Seq::new(i as nat, |k: int| k as usize),
            decreases ranks@.len() - i,
        {
            queue.push(i);
            assert(queue@ =~= Seq::new((i + 1) as nat, |k: int| k as usize));
            i = i + 1;
        }
        let ghost q0 = queue@;
        let mut seed = thread_generator();
        let mut rng = generator_from(&mut seed);
        shuffle_indices(&mut queue, &mut rng);
        proof {
            q0.to_multiset_ensures();
            queue@.to_multiset_ensures();
            assert forall|k: int| 0 <= k < queue@.len() implies #[trigger] queue@[k] < ranks@.len() by {
                assert(queue@.to_multiset().count(queue@[k]) > 0);
                assert(q0.to_multiset().count(queue@[k]) > 0);
                assert(q0.contains(queue@[k]));
            }
            assert forall|i: int| 0 <= i < ranks@.len() implies #[trigger] queue@.contains(i as usize) by {
                assert(q0[i] == i as usize);
                assert(q0.to_multiset().count(i as usize) > 0);
                assert(queue@.to_multiset().count(i as usize) > 0);
            }
        }
        Self { rng, ranks, queue }
    }

    /// Pairs the next queued player that can be paired with a random
    /// candidate, and marks both as paired; `None` once the queue is used up.
    pub fn next_match(&mut self) -> (r: Option<(MatchmakingEntry, MatchmakingEntry)>)
        requires
            old(self).wf(),
        ensures
            final(self).wf(),
            final(self).queue().len() <= old(self).queue().len(),
            final(self).queue() == old(self).queue().take(final(self).queue().len() as int),
            r is None ==> forall|i: int|
                0 <= i < final(self).ranks().len() ==> #[trigger] passed_over(final(self).ranks(), i),
            forall|m: int|
                final(self).queue().len() < m < old(self).queue().len() ==> passed_over(
                    old(self).ranks(),
                    #[trigger] old(self).queue()[m] as int,
                ),
            match r {
                None => {
                    &&& final(self).queue().len() == 0
                    &&& (old(self).queue().len() > 0 ==> passed_over(old(self).ranks(), old(self).queue()[0] as int))
                    &&& final(self).ranks() == old(self).ranks()
                },
                Some((a, b)) => {
                    let k = final(self).queue().len() as int;
                    let index = old(self).queue()[k] as int;
                    &&& k < old(self).queue().len()
                    &&& index < old(self).ranks().len()
                    &&& !old(self).ranks()[index]@.matched
                    &&& matched_count(final(self).ranks()) == matched_count(old(self).ranks()) + 2
                    &&& exists|o: int|
                        #![trigger is_candidate(old(self).ranks(), index, o)]
                        {
                        &&& is_candidate(old(self).ranks(), index, o)
                        &&& paired_update(old(self).ranks(), final(self).ranks(), index, o)
                        &&& a == final(self).ranks()[index]
                        &&& b == final(self).ranks()[o]
                    }
                },
            },
    {
        let ghost q0 = self.queue@;
        let ghost r0 = self.ranks@;
        loop
            invariant
                self.ranks@ == r0,
                r0 == old(self).ranks@,
                q0 == old(self).queue@,
                self.queue@ == q0.take(self.queue@.len() as int),
                self.queue@.len() <= q0.len(),
                forall|i: int| 0 <= i < q0.len() ==> #[trigger] q0[i] < r0.len(),
                forall|m: int| self.queue@.len() <= m < q0.len() ==> passed_over(r0, #[trigger] q0[m] as int),
                forall|i: int|
                    0 <= i < r0.len() && !self.queue@.contains(i as usize) ==> #[trigger] passed_over(r0, i),
            decreases self.queue@.len(),
        {
            let ghost qbefore = self.queue@;
            assert(forall|i: int|
                0 <= i < r0.len() && !qbefore.contains(i as usize) ==> #[trigger] passed_over(r0, i));
            let index = match self.queue.pop() {
                Some(i) => i,
                None => {
                    return None;
                },
            };
            let ghost k = self.queue@.len() as int;
            let len = self.ranks.len();
            proof {
                assert(q0.take(k) =~= q0.take(k + 1).drop_last());
                assert(index == q0[k]);
                assert forall|i: int|
                    0 <= i < r0.len() && !self.queue@.contains(i as usize) && i != index implies #[trigger] passed_over(r0, i) by {
                    assert(qbefore == q0.take(k + 1));
                    if q0.take(k + 1).contains(i as usize) {
                        let w = choose|w: int| 0 <= w < k + 1 && #[trigger] q0.take(k + 1)[w] == i as usize;
                        assert(q0.take(k + 1)[w] == q0[w]);
                        if w < k {
                            assert(self.queue@ == q0.take(k));
                            assert(self.queue@[w] == q0[w]);
                            assert(self.queue@.contains(i as usize));
                        } else {
                            assert(w == k);
                            assert(q0[k] == index);
                            assert(index == i as usize);
                        }
                    } else {
                        assert(!qbefore.contains(i as usize));
                    }
                }
            }
            if self.ranks[index].matched {
                proof {
                    assert(passed_over(r0, q0[k] as int));
                }
                continue;
            }
            let lo: usize = if index >= 5 { index - 5 } else { 0 };
            let hi: usize = if len - index > 6 { index + 6 } else { len };
            let mut opponents: Vec<usize> = Vec::new();
            let mut j: usize = lo;
            while j < hi
                invariant
                    self.ranks@ == r0,
                    len == r0.len(),
                    index < len,
                    lo == window_lo(index as int),
                    hi == window_hi(index as int, len as int),
                    lo <= j <= hi,
                    forall|k: int| 0 <= k < opponents@.len() ==> is_candidate(r0, index as int, #[trigger] opponents@[k] as int),
                    forall|o: int| lo <= o < j && is_candidate(r0, index as int, o) ==> opponents@.contains(o as usize),
                decreases hi - j,
            {
                let ghost before = opponents@;
                if j != index && !self.ranks[j].matched {
                    opponents.push(j);
                    proof {
                        assert(opponents@[opponents@.len() - 1] == j);
                    }
                }
                proof {
                    assert forall|o: int| lo <= o < j + 1 && is_candidate(r0, index as int, o) implies opponents@.contains(o as usize) by {
                        if o < j {
                            assert(before.contains(o as usize));
                            let w = choose|w: int| 0 <= w < before.len() && before[w] == o as usize;
                            assert(opponents@[w] == o as usize);
                        } else {
                            assert(opponents@[opponents@.len() - 1] == j);
                        }
                    }
                }
                j = j + 1;
            }
            if opponents.len() == 0 {
                proof {
                    assert forall|o: int| !is_candidate(r0, index as int, o) by {
                        if is_candidate(r0, index as int, o) {
                            assert(opponents@.contains(o as usize));
                        }
                    }
                    assert(passed_over(r0, q0[k] as int));
                }
                continue;
            }
            let pick = random_index(&mut self.rng, opponents.len());
            let o_index = opponents[pick];
            assert(is_candidate(r0, index as int, o_index as int));
            let mut a = self.ranks[index];
            a.matched = true;
            self.ranks.set(index, a);
            let mut b = self.ranks[o_index];
            b.matched = true;
            self.ranks.set(o_index, b);
            proof {
                assert(self.ranks@[index as int]@ == r0[index as int]@.paired());
                assert(self.ranks@[o_index as int]@ == r0[o_index as int]@.paired());
                assert(self.queue@.len() == k);
                assert(!r0[index as int]@.matched);
                let o = o_index as int;
                assert(forall|i: int| 0 <= i < r0.len() && i != index && i != o ==> #[trigger] self.ranks@[i] == r0[i]);
                assert(is_candidate(r0, q0[k] as int, o));
                let mid = r0.update(index as int, self.ranks@[index as int]);
                lemma_matched_count_update(r0, index as int, self.ranks@[index as int]);
                lemma_matched_count_update(mid, o, self.ranks@[o]);
                assert(self.ranks@ =~= mid.update(o, self.ranks@[o]));
                assert(mid[o] == r0[o]);
            }
            let ra = self.ranks[index];
            let rb = self.ranks[o_index];
            proof {
                assert(is_candidate(old(self).ranks(), old(self).queue()[self.queue().len() as int] as int, o_index as int));
                assert forall|i: int|
                    0 <= i < self.ranks@.len() && !self.queue@.contains(i as usize) implies #[trigger] passed_over(self.ranks@, i) by {
                    if i != index && i != o_index {
                        lemma_passed_over_persists(r0, self.ranks@, index as int, o_index as int, i);
                    }
                }
            }
            return Some((ra, rb));
        }
    }
}

/// `p` says where each entry of `r` stood in `v`: it is one-to-one, and
/// entries of equal rating keep the order they had in `v`.
pub open spec fn stable_rearrangement(
    r: Seq<MatchmakingEntry>,
    v: Seq<MatchmakingEntry>,
    p: Seq<int>,
) -> bool {
    &&& p.len() == r.len()
    &&& r.len() == v.len()
    &&& forall|k: int| 0 <= k < p.len() ==> 0 <= #[trigger] p[k] < v.len() && r[k] == v[p[k]]
    &&& forall|a: int, b: int| 0 <= a < b < p.len() ==> #[trigger] p[a] != #[trigger] p[b]
    &&& forall|a: int, b: int|
        0 <= a < b < r.len() && (#[trigger] r[a])@.elo == (#[trigger] r[b])@.elo ==> p[a] < p[b]
}

/// `r` holds the entries of `v` and keeps entries of equal rating in the
/// order they had in `v`.
pub open spec fn stable_order(r: Seq<MatchmakingEntry>, v: Seq<MatchmakingEntry>) -> bool {
    exists|p: Seq<int>| #[trigger] stable_rearrangement(r, v, p)
}

/// Orders the entries by rating, lowest first; entries of equal rating keep
/// their order.
fn sort_by_elo(v: Vec<MatchmakingEntry>) -> (r: Vec<MatchmakingEntry>)
    ensures
        r@.to_multiset() == v@.to_multiset(),
        sorted_by_elo(r@),
        stable_order(r@, v@),
{
    let mut r = v;
    let n = r.len();
    let mut i: usize = 1;
    let ghost mut perm: Seq<int> = Seq::new(n as nat, |k: int| k);
    if n == 0 {
        assert(stable_rearrangement(r@, v@, perm));
        return r;
    }
    proof {
        assert forall|a: int, b: int| 0 <= a <= b < n implies r@[a]@.elo == r@[a].elo && r@[b]@.elo == r@[b].elo by {}
    }
    while i < n
        invariant
            n == r@.len(),
            n == v@.len(),
            1 <= i <= n,
            r@.to_multiset() == v@.to_multiset(),
            forall|a: int, b: int| 0 <= a <= b < i ==> #[trigger] r@[a].elo <= #[trigger] r@[b].elo,
            perm.len() == n,
            forall|k: int| 0 <= k < n ==> 0 <= #[trigger] perm[k] < n && r@[k] == v@[perm[k]],
            forall|a: int, b: int| 0 <= a < b < n ==> #[trigger] perm[a] != #[trigger] perm[b],
            forall|k: int| i <= k < n ==> #[trigger] perm[k] == k,
            forall|k: int| 0 <= k < i ==> #[trigger] perm[k] < i,
            forall|a: int, b: int|
                0 <= a < b < i && (#[trigger] r@[a]).elo == (#[trigger] r@[b]).elo ==> perm[a] < perm[b],
        decreases n - i,
    {
        let mut j: usize = i;
        assert(perm[i as int] == i);
        while j > 0 && r[j - 1].elo > r[j].elo
            invariant
                n == r@.len(),
                n == v@.len(),
                0 <= j <= i < n,
                r@.to_multiset() == v@.to_multiset(),
                forall|a: int, b: int|
                    0 <= a <= b <= i && a != j && b != j ==> #[trigger] r@[a].elo <= #[trigger] r@[b].elo,
                forall|b: int| j < b <= i ==> r@[j as int].elo < #[trigger] r@[b].elo,
                perm.len() == n,
                forall|k: int| 0 <= k < n ==> 0 <= #[trigger] perm[k] < n && r@[k] == v@[perm[k]],
                forall|a: int, b: int| 0 <= a < b < n ==> #[trigger] perm[a] != #[trigger] perm[b],
                forall|k: int| i < k < n ==> #[trigger] perm[k] == k,
                perm[j as int] == i,
                forall|k: int| 0 <= k <= i && k != j ==> #[trigger] perm[k] < i,
                forall|a: int, b: int|
                    0 <= a < b <= i && a != j && b != j && (#[trigger] r@[a]).elo == (#[trigger] r@[b]).elo
                        ==> perm[a] < perm[b],
            decreases j,
        {
            let ghost before = r@;
            let ghost pb = perm;
            let x = r[j - 1];
            let y = r[j];
            r.set(j - 1, y);
            r.set(j, x);
            proof {
                perm = pb.update(j - 1, pb[j as int]).update(j as int, pb[j - 1]);
                assert(r@ =~= before.update(j - 1, y).update(j as int, x));
                lemma_swap_multiset(before, j - 1, j as int);
                assert forall|a: int, b: int| 0 <= a < b < n implies #[trigger] perm[a] != #[trigger] perm[b] by {
                    let oa = if a == j - 1 { j as int } else if a == j { j - 1 } else { a };
                    let ob = if b == j - 1 { j as int } else if b == j { j - 1 } else { b };
                    assert(perm[a] == pb[oa]);
                    assert(perm[b] == pb[ob]);
                    if oa < ob {
                        assert(pb[oa] != pb[ob]);
                    } else {
                        assert(pb[ob] != pb[oa]);
                    }
                }
                assert forall|a: int, b: int|
                    0 <= a < b <= i && a != j - 1 && b != j - 1 && (#[trigger] r@[a]).elo == (#[trigger] r@[b]).elo
                        implies perm[a] < perm[b] by {
                    let oa = if a == j { j - 1 } else { a };
                    let ob = if b == j { j - 1 } else { b };
                    assert(r@[a] == before[oa]);
                    assert(r@[b] == before[ob]);
                    assert(perm[a] == pb[oa]);
                    assert(perm[b] == pb[ob]);
                    assert(oa < ob);
                }
            }
            j = j - 1;
        }
        proof {
            assert forall|a: int, b: int|
                0 <= a < b < i + 1 && (#[trigger] r@[a]).elo == (#[trigger] r@[b]).elo implies perm[a] < perm[b] by {
                if a == j {
                    assert(r@[j as int].elo < r@[b].elo);
                } else if b == j {
                    assert(perm[a] < i);
                }
            }
        }
        i = i + 1;
    }
    proof {
        assert forall|a: int, b: int|
            0 <= a < b < r@.len() && (#[trigger] r@[a])@.elo == (#[trigger] r@[b])@.elo implies perm[a] < perm[b] by {
            assert(r@[a].elo == r@[b].elo);
        }
        assert(stable_rearrangement(r@, v@, perm));
    }
    r
}

proof fn lemma_swap_multiset(s: Seq<MatchmakingEntry>, a: int, b: int)
    requires
        0 <= a < b < s.len(),
    ensures
        s.update(a, s[b]).update(b, s[a]).to_multiset() == s.to_multiset(),
{
    broadcast use vstd::multiset::group_multiset_properties, vstd::multiset::group_multiset_axioms;

    let t = s.update(a, s[b]);
    vstd::seq_lib::to_multiset_update(s, a, s[b]);
    vstd::seq_lib::to_multiset_update(t, b, s[a]);
    assert(t[b] == s[b]);
    s.to_multiset_ensures();
    t.to_multiset_ensures();
    assert(s.contains(s[a]));
    assert(s.contains(s[b]));
    let m = s.to_multiset();
    let m2 = m.insert(s[b]).remove(s[a]).insert(s[a]).remove(s[b]);
    assert forall|x: MatchmakingEntry| m2.count(x) == m.count(x) by {}
    assert(m2 =~= m);
}

} // verus!
