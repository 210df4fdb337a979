//! Stored jokes and the rule for listing the most recent ones: newest
//! first, never more than [`RECENT_LIMIT`] entries.

use vstd::prelude::*;

verus! {

broadcast use vstd::seq_lib::group_to_multiset_ensures, vstd::multiset::group_multiset_axioms;

/// Most entries a recent-jokes listing may hold.
pub const RECENT_LIMIT: usize = 10;

/// A persisted joke: born at insert time, immutable thereafter, never
/// deleted by this service.
pub struct StoredJoke {
    /// Surrogate key given by the store.
    pub id: i32,
    /// The joke itself.
    pub joke_text: String,
    /// Creation time, in seconds since the Unix epoch.
    pub created_at: i64,
}

/// Newest first: creation times never increase along the sequence.
pub open spec fn sorted_newest_first(s: Seq<StoredJoke>) -> bool {
    forall|i: int, j: int| 0 <= i < j < s.len() ==> s[i].created_at >= s[j].created_at
}

/// Select the listing for a recent-jokes request out of any collection
/// of stored jokes: the most recent entries, newest first, and never
/// more than [`RECENT_LIMIT`] of them. Every entry of the listing is one
/// of the given rows, and every row left out is no newer than any entry
/// kept.
pub fn recent_jokes(rows: Vec<StoredJoke>) -> (out: Vec<StoredJoke>)
    ensures
        out@.len() == if rows@.len() < RECENT_LIMIT { rows@.len() as int } else { RECENT_LIMIT as int },
        sorted_newest_first(out@),
        out@.to_multiset().subset_of(rows@.to_multiset()),
        forall|r: StoredJoke| rows@.to_multiset().count(r) > out@.to_multiset().count(r)
            ==> out@.len() == RECENT_LIMIT
                && r.created_at <= out@[RECENT_LIMIT - 1].created_at,
{
    let mut sorted = rows;
    let ghost rows0 = sorted@;
    sort_newest_first(&mut sorted);
    let ghost whole = sorted@;
    sorted.truncate(RECENT_LIMIT);
    proof {
        if rows0.len() <= RECENT_LIMIT {
            assert(sorted@ =~= whole);
            assert(sorted@.to_multiset().subset_of(rows0.to_multiset()));
        } else {
            assert(sorted@ == whole.subrange(0, RECENT_LIMIT as int));
            let dropped = whole.subrange(RECENT_LIMIT as int, whole.len() as int);
            assert(whole =~= sorted@ + dropped);
            vstd::seq_lib::lemma_multiset_commutative(sorted@, dropped);
            assert forall|r: StoredJoke|
                rows0.to_multiset().count(r) > sorted@.to_multiset().count(r)
                implies r.created_at <= sorted@[RECENT_LIMIT - 1].created_at by {
                assert(dropped.to_multiset().count(r) > 0);
                assert(dropped.contains(r));
                let k = choose|k: int| 0 <= k < dropped.len() && dropped[k] == r;
                assert(whole[RECENT_LIMIT + k] == r);
                assert(whole[RECENT_LIMIT - 1].created_at >= whole[RECENT_LIMIT + k].created_at);
                assert(sorted@[RECENT_LIMIT - 1] == whole[RECENT_LIMIT - 1]);
            }
        }
    }
    sorted
}

/// What the RFC 3339 formatter produces for the moment `seconds` after
/// the Unix epoch — or the empty text where that moment lies outside
/// the representable range.
pub uninterp spec fn rfc3339_of(seconds: int) -> Seq<char>;

/// Relies on time::OffsetDateTime::from_unix_timestamp and
/// time::OffsetDateTime::format with the well-known RFC 3339
/// description: the text depends on the moment alone.
#[verifier::external_body]
fn format_rfc3339(seconds: i64) -> (text: String)
    ensures
        text@ == rfc3339_of(seconds as int),
{
    match time::OffsetDateTime::from_unix_timestamp(seconds) {
        Ok(moment) => moment
            .format(&time::format_description::well_known::Rfc3339)
            .unwrap_or_default(),
        Err(_) => String::new(),
    }
}

/// The wire form of a stored joke, as the HTTP surface serializes it:
/// the id, the joke itself, and the creation time as an RFC 3339
/// timestamp string.
pub fn wire_fields(joke: &StoredJoke) -> (wire: (i32, String, String))
    ensures
        wire.0 == joke.id,
        wire.1@ == joke.joke_text@,
        wire.2@ == rfc3339_of(joke.created_at as int),
{
    (joke.id, joke.joke_text.clone(), format_rfc3339(joke.created_at))
}

/// Sort stored jokes newest first; the result holds exactly the same
/// entries.
fn sort_newest_first(v: &mut Vec<StoredJoke>)
    ensures
        final(v)@.len() == old(v)@.len(),
        final(v)@.to_multiset() == old(v)@.to_multiset(),
        sorted_newest_first(final(v)@),
{
    if v.len() <= 1 {
        return;
    }
    let ghost orig = v@;
    let mut i: usize = 1;
    while i < v.len()
        invariant
            1 <= i <= v@.len(),
            v@.len() == orig.len(),
            v@.to_multiset() == orig.to_multiset(),
            sorted_newest_first(v@.take(i as int)),
        decreases v@.len() - i,
    {
        let ghost u = v@;
        let x = v.remove(i);
        proof {
            assert(v@.take(i as int) =~= u.take(i as int));
        }
        let mut j: usize = 0;
        while j < i && v[j].created_at >= x.created_at
            invariant
                0 <= j <= i,
                i < u.len(),
                x == u[i as int],
                v@ == u.remove(i as int),
                i <= v@.len(),
                forall|k: int| 0 <= k < j ==> v@[k].created_at >= x.created_at,
            decreases i - j,
        {
            j += 1;
        }
        let ghost w = v@;
        v.insert(j, x);
        proof {
            assert(u.contains(x)) by {
                assert(u[i as int] == x);
            }
            assert(u.to_multiset().count(x) > 0);
            assert(v@.to_multiset() =~= u.to_multiset());
            w.insert_ensures(j as int, x);
            assert forall|p: int, q: int| 0 <= p < q < i + 1
                implies v@[p].created_at >= v@[q].created_at by {
                if q < j {
                    assert(v@[p] == w[p] && v@[q] == w[q]);
                    assert(u.take(i as int)[p] == w[p] && u.take(i as int)[q] == w[q]);
                } else if q == j {
                    assert(v@[q] == x);
                    assert(v@[p] == w[p]);
                } else {
                    assert(v@[q] == w[q - 1]);
                    if p < j {
                        assert(v@[p] == w[p]);
                        if p < q - 1 {
                            assert(u.take(i as int)[p] == w[p]
                                && u.take(i as int)[q - 1] == w[q - 1]);
                        }
                    } else if p == j {
                        assert(v@[p] == x);
                        assert(w[j as int].created_at < x.created_at);
                        if j < q - 1 {
                            assert(u.take(i as int)[j as int] == w[j as int]
                                && u.take(i as int)[q - 1] == w[q - 1]);
                        }
                    } else {
                        assert(v@[p] == w[p - 1]);
                        if p - 1 < q - 1 {
                            assert(u.take(i as int)[p - 1] == w[p - 1]
                                && u.take(i as int)[q - 1] == w[q - 1]);
                        }
                    }
                }
            }
            assert(sorted_newest_first(v@.take(i + 1 as int)));
        }
        i += 1;
    }
    proof {
        assert(v@.take(v@.len() as int) =~= v@);
    }
}

} // verus!
