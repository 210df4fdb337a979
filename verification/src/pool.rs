//! The joke pool: a dispenser that hands out jokes from a fixed universe
//! in pseudo-random order, repeating none until the whole universe has
//! been exhausted, then refilling and starting over.

use vstd::prelude::*;

verus! {

use vstd::multiset::Multiset;

broadcast use vstd::seq_lib::group_to_multiset_ensures, vstd::multiset::group_multiset_axioms;

/// The text of each joke in a sequence, in order.
pub open spec fn texts(jokes: Seq<String>) -> Seq<Seq<char>> {
    jokes.map_values(|j: String| j@)
}

/// One draw, as a relation between the pool's contents before and after.
/// While jokes are still available the drawn joke comes out of them; when
/// none are left, the pool refills from the universe first, so the draw
/// comes out of the full universe.
pub open spec fn draw_rel(
    universe: Multiset<Seq<char>>,
    before: Multiset<Seq<char>>,
    after: Multiset<Seq<char>>,
    drawn: Seq<char>,
) -> bool {
    if before.len() > 0 {
        before.count(drawn) > 0 && after == before.remove(drawn)
    } else {
        universe.count(drawn) > 0 && after == universe.remove(drawn)
    }
}

/// An in-memory dispenser of jokes: a fixed universe and a depleting
/// working set of jokes not yet handed out since the last refill.
pub struct JokePool {
    universe: Vec<String>,
    available: Vec<String>,
    rng: u64,
}

impl JokePool {
    /// The fixed universe, as the multiset of its jokes' texts.
    pub closed spec fn universe_ms(&self) -> Multiset<Seq<char>> {
        texts(self.universe@).to_multiset()
    }

    /// The jokes not yet handed out since the last refill, as the
    /// multiset of their texts.
    pub closed spec fn available_ms(&self) -> Multiset<Seq<char>> {
        texts(self.available@).to_multiset()
    }

    /// Well-formed: the universe is non-empty, and every available joke
    /// is one of the universe.
    pub closed spec fn wf(&self) -> bool {
        &&& self.universe@.len() > 0
        &&& self.available_ms().subset_of(self.universe_ms())
    }

    /// Build a pool over a non-empty universe of jokes. All of them are
    /// available at first. `seed` starts the pseudo-random selection.
    pub fn new(jokes: Vec<String>, seed: u64) -> (pool: JokePool)
        requires
            jokes@.len() > 0,
        ensures
            pool.wf(),
            pool.universe_ms() == texts(jokes@).to_multiset(),
            pool.available_ms() == pool.universe_ms(),
    {
        let available = clone_jokes(&jokes);
        JokePool { universe: jokes, available, rng: seed }
    }

    /// How many jokes the fixed universe holds.
    pub fn universe_len(&self) -> (n: usize)
        ensures
            n == self.universe_ms().len(),
    {
        self.universe.len()
    }

    /// How many jokes are still available before the next refill.
    pub fn available_len(&self) -> (n: usize)
        ensures
            n == self.available_ms().len(),
    {
        self.available.len()
    }

    /// Draw the next joke. When no jokes are available any more, the
    /// working set is first refilled with a full copy of the universe —
    /// an observable side effect, not an error — so a draw never fails.
    pub fn draw_next(&mut self) -> (joke: String)
        requires
            old(self).wf(),
        ensures
            final(self).wf(),
            final(self).universe_ms() == old(self).universe_ms(),
            old(self).universe_ms().count(joke@) > 0,
            draw_rel(
                old(self).universe_ms(),
                old(self).available_ms(),
                final(self).available_ms(),
                joke@,
            ),
            final(self).available_ms().len() == if old(self).available_ms().len() > 0 {
                old(self).available_ms().len() - 1
            } else {
                old(self).universe_ms().len() - 1
            },
    {
        if self.available.len() == 0 {
            let refill = clone_jokes(&self.universe);
            self.available = refill;
        }
        let ghost s = self.available@;
        let n = self.available.len();
        self.rng = next_state(self.rng);
        let i = (self.rng % (n as u64)) as usize;
        let joke = self.available.swap_remove(i);
        proof {
            lemma_texts_swap_remove(s, i as int);
            assert(texts(s)[i as int] == s[i as int]@);
            assert(texts(s).contains(joke@));
            assert(texts(s).to_multiset().count(joke@) > 0);
            assert forall|t: Seq<char>|
                texts(s).to_multiset().remove(joke@).count(t)
                    <= old(self).universe_ms().count(t) by {
                assert(texts(s).to_multiset().count(t) <= old(self).universe_ms().count(t));
            }
            assert(Multiset::singleton(joke@).subset_of(texts(s).to_multiset()));
        }
        joke
    }
}

/// Clone a vector of jokes; the copy holds the same jokes.
fn clone_jokes(jokes: &Vec<String>) -> (out: Vec<String>)
    ensures
        out@ == jokes@,
{
    let out = jokes.clone();
    proof {
        assert forall|i: int| 0 <= i < jokes@.len() implies out@[i] == jokes@[i] by {
            assert(cloned::<String>(jokes@[i], out@[i]));
        }
        assert(out@ =~= jokes@);
    }
    out
}

/// Advance the pseudo-random state by one xorshift round.
fn next_state(x: u64) -> u64 {
    let a: u64 = x ^ (x << 13u64);
    let b: u64 = a ^ (a >> 7u64);
    b ^ (b << 17u64)
}

/// Removing the element at `i` by moving the last element into its slot
/// takes exactly one occurrence of that element out of the multiset.
proof fn lemma_texts_swap_remove(s: Seq<String>, i: int)
    requires
        0 <= i < s.len(),
    ensures
        texts(s.update(i, s.last()).drop_last()).to_multiset()
            == texts(s).to_multiset().remove(s[i]@),
{
    let t = texts(s);
    assert(texts(s.update(i, s.last()).drop_last()) =~= t.update(i, t.last()).drop_last());
    lemma_swap_remove_multiset(t, i);
}

/// Along any chain of draws that starts from a full pool, the pool
/// shrinks by exactly one joke per draw: after `k` draws it holds
/// `n - k` jokes, where `n` is the size of the universe.
proof fn lemma_draw_chain_len(
    universe: Multiset<Seq<char>>,
    avails: Seq<Multiset<Seq<char>>>,
    draws: Seq<Seq<char>>,
    k: int,
)
    requires
        avails.len() == draws.len() + 1,
        avails[0] == universe,
        forall|i: int| 0 <= i < draws.len()
            ==> #[trigger] draw_rel(universe, avails[i], avails[i + 1], draws[i]),
        0 <= k <= draws.len(),
        k <= universe.len(),
    ensures
        avails[k].len() == universe.len() - k,
    decreases k,
{
    if k > 0 {
        lemma_draw_chain_len(universe, avails, draws, k - 1);
        let i = k - 1;
        assert(draw_rel(universe, avails[i], avails[i + 1], draws[i]));
        assert(Multiset::singleton(draws[i]).subset_of(avails[i]));
    }
}

/// Along any chain of draws that starts from a full pool and stays
/// within the first cycle, the pool's contents and the drawn jokes
/// together always make up exactly the universe.
proof fn lemma_draw_chain_sum(
    universe: Multiset<Seq<char>>,
    avails: Seq<Multiset<Seq<char>>>,
    draws: Seq<Seq<char>>,
    k: int,
)
    requires
        avails.len() == draws.len() + 1,
        avails[0] == universe,
        forall|i: int| 0 <= i < draws.len()
            ==> #[trigger] draw_rel(universe, avails[i], avails[i + 1], draws[i]),
        0 <= k <= draws.len(),
        draws.len() <= universe.len(),
    ensures
        avails[k].add(draws.take(k).to_multiset()) == universe,
    decreases k,
{
    if k == 0 {
        assert(draws.take(0) =~= Seq::<Seq<char>>::empty());
        vstd::multiset::lemma_multiset_empty_len(draws.take(0).to_multiset());
        assert(avails[0].add(draws.take(0).to_multiset()) =~= universe);
    } else {
        lemma_draw_chain_sum(universe, avails, draws, k - 1);
        lemma_draw_chain_len(universe, avails, draws, k - 1);
        let d = draws[k - 1];
        let i = k - 1;
        assert(draw_rel(universe, avails[i], avails[i + 1], draws[i]));
        assert(draws.take(k) =~= draws.take(k - 1).push(d));
        assert(draws.take(k).to_multiset() =~= draws.take(k - 1).to_multiset().insert(d));
        assert forall|t: Seq<char>|
            avails[k].add(draws.take(k).to_multiset()).count(t) == universe.count(t) by {
            assert(avails[k - 1].add(draws.take(k - 1).to_multiset()).count(t)
                == universe.count(t));
        }
        assert(avails[k].add(draws.take(k).to_multiset()) =~= universe);
    }
}

/// First law of the pool: starting from a full pool over a universe of
/// `n` distinct jokes, `n` draws without an interleaving refill hand out
/// `n` distinct jokes that together are exactly the universe.
pub proof fn lemma_full_cycle_no_repeats(
    universe: Multiset<Seq<char>>,
    avails: Seq<Multiset<Seq<char>>>,
    draws: Seq<Seq<char>>,
)
    requires
        forall|t: Seq<char>| universe.count(t) <= 1,
        draws.len() == universe.len(),
        avails.len() == draws.len() + 1,
        avails[0] == universe,
        forall|i: int| 0 <= i < draws.len()
            ==> #[trigger] draw_rel(universe, avails[i], avails[i + 1], draws[i]),
    ensures
        draws.to_multiset() == universe,
        forall|i: int, j: int| 0 <= i < j < draws.len() ==> draws[i] != draws[j],
{
    let n = draws.len() as int;
    lemma_draw_chain_sum(universe, avails, draws, n);
    lemma_draw_chain_len(universe, avails, draws, n);
    vstd::multiset::lemma_multiset_empty_len(avails[n]);
    assert(draws.take(n) =~= draws);
    assert(avails[n].add(draws.to_multiset()) =~= draws.to_multiset());
    assert forall|i: int, j: int| 0 <= i < j < n implies draws[i] != draws[j] by {
        if draws[i] == draws[j] {
            lemma_draw_chain_sum(universe, avails, draws, j);
            lemma_draw_chain_len(universe, avails, draws, j);
            assert(draw_rel(universe, avails[j], avails[j + 1], draws[j]));
            assert(draws.take(j)[i] == draws[i]);
            assert(draws.take(j).contains(draws[i]));
            assert(draws.take(j).to_multiset().count(draws[i]) > 0);
            assert(avails[j].add(draws.take(j).to_multiset()).count(draws[j])
                == universe.count(draws[j]));
            assert(false);
        }
    }
}

/// Second law of the pool: starting from a full pool over a universe of
/// `n` jokes, `n + 1` draws meet an empty pool — and so trigger a refill
/// — exactly once, at the last draw, and that draw comes out of the
/// freshly refilled, full universe.
pub proof fn lemma_one_refill(
    universe: Multiset<Seq<char>>,
    avails: Seq<Multiset<Seq<char>>>,
    draws: Seq<Seq<char>>,
)
    requires
        universe.len() > 0,
        draws.len() == universe.len() + 1,
        avails.len() == draws.len() + 1,
        avails[0] == universe,
        forall|i: int| 0 <= i < draws.len()
            ==> #[trigger] draw_rel(universe, avails[i], avails[i + 1], draws[i]),
    ensures
        forall|i: int| 0 <= i < draws.len()
            ==> ((avails[i].len() == 0) <==> i == universe.len()),
        universe.count(draws[universe.len() as int]) > 0,
        avails[draws.len() as int] == universe.remove(draws[universe.len() as int]),
{
    let n = universe.len() as int;
    assert forall|i: int| 0 <= i < draws.len()
        implies ((avails[i].len() == 0) <==> i == n) by {
        lemma_draw_chain_len(universe, avails, draws, i);
    }
    lemma_draw_chain_len(universe, avails, draws, n);
    assert(draw_rel(universe, avails[n], avails[n + 1], draws[n]));
}

/// Over any sequence: replacing the element at `i` with the last one and
/// then dropping the last slot removes exactly one occurrence of the
/// element that stood at `i`.
proof fn lemma_swap_remove_multiset<A>(s: Seq<A>, i: int)
    requires
        0 <= i < s.len(),
    ensures
        s.update(i, s.last()).drop_last().to_multiset() == s.to_multiset().remove(s[i]),
{
    let n = s.len() as int;
    if i == n - 1 {
        assert(s.update(i, s.last()) =~= s);
        assert(s.drop_last() =~= s.remove(n - 1));
        assert(s.remove(n - 1).to_multiset() == s.to_multiset().remove(s[n - 1]));
    } else {
        let t = s.update(i, s.last());
        assert(t =~= s.remove(i).insert(i, s.last()));
        assert(t.to_multiset() == s.remove(i).to_multiset().insert(s.last()));
        assert(s.remove(i).to_multiset() == s.to_multiset().remove(s[i]));
        assert(t.drop_last() =~= t.remove(n - 1));
        assert(t.remove(n - 1).to_multiset() == t.to_multiset().remove(t[n - 1]));
        assert(t[n - 1] == s.last());
        assert(s.to_multiset().remove(s[i]).insert(s.last()).remove(s.last())
            =~= s.to_multiset().remove(s[i]));
    }
}

} // verus!
