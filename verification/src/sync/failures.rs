//! What the failure list of the sync panel keeps of a finished run, and the lines
//! and notice it produces. A failure is known by its key (path and reason): one
//! already listed is not listed again, and a notice counts only new failures whose
//! key the user has not silenced.

use vstd::prelude::*;
use crate::sync::outcome::{failure_key, SyncFailure, SyncOutcome};
use crate::text::{chars_equal, chars_of, decimal, push_decimal, push_str, string_from};

verus! {

/// The failure list keeps at most this many entries, dropping the oldest.
pub const MAX_TRACKED_FAILURES: usize = 300;

/// A failure as (path, reason).
pub type FailureView = (Seq<char>, Seq<char>);

pub open spec fn fview(f: SyncFailure) -> FailureView {
    (f.path@, f.reason@)
}

/// The failures of a list, as (path, reason).
pub open spec fn fviews(list: Seq<SyncFailure>) -> Seq<FailureView> {
    list.map_values(|f: SyncFailure| fview(f))
}

pub open spec fn key_of(f: FailureView) -> Seq<char> {
    failure_key(f.0, f.1)
}

/// Whether a failure with this key is listed.
pub open spec fn knows(list: Seq<FailureView>, key: Seq<char>) -> bool {
    exists|i: int| 0 <= i < list.len() && key_of(list[i]) == key
}

/// The list after taking in `incoming` in order, each failure added unless its
/// key is already listed.
pub open spec fn absorb(known: Seq<FailureView>, incoming: Seq<FailureView>) -> Seq<FailureView>
    decreases incoming.len(),
{
    if incoming.len() == 0 {
        known
    } else {
        let k = absorb(known, incoming.drop_last());
        if knows(k, key_of(incoming.last())) {
            k
        } else {
            k.push(incoming.last())
        }
    }
}

/// How many of the failures added by [`absorb`] have a key not among `silenced`.
pub open spec fn fresh_unsilenced(
    known: Seq<FailureView>,
    incoming: Seq<FailureView>,
    silenced: Seq<Seq<char>>,
) -> nat
    decreases incoming.len(),
{
    if incoming.len() == 0 {
        0
    } else {
        let k = absorb(known, incoming.drop_last());
        let key = key_of(incoming.last());
        fresh_unsilenced(known, incoming.drop_last(), silenced) + if !knows(k, key)
            && !silenced.contains(key) {
            1nat
        } else {
            0nat
        }
    }
}

/// The last `max` items of `s` (all of them when there are fewer).
pub open spec fn keep_last<T>(s: Seq<T>, max: nat) -> Seq<T> {
    if s.len() > max {
        s.subrange(s.len() - max, s.len() as int)
    } else {
        s
    }
}

/// No two listed failures share a key.
pub open spec fn keys_distinct(list: Seq<FailureView>) -> bool {
    forall|i: int, j: int| 0 <= i < j < list.len() ==> key_of(list[i]) != key_of(list[j])
}

/// Taking failures in never lists a key twice, and afterwards every key met,
/// old or new, is listed.
pub proof fn lemma_absorb_lists_each_key_once(known: Seq<FailureView>, incoming: Seq<FailureView>)
    requires
        keys_distinct(known),
    ensures
        keys_distinct(absorb(known, incoming)),
        forall|i: int| 0 <= i < known.len() ==> knows(absorb(known, incoming), key_of(known[i])),
        forall|i: int| 0 <= i < incoming.len() ==> knows(absorb(known, incoming), key_of(incoming[i])),
        absorb(known, incoming).len() >= known.len(),
        absorb(known, incoming).subrange(0, known.len() as int) == known,
    decreases incoming.len(),
{
    if incoming.len() == 0 {
        assert(known.subrange(0, known.len() as int) =~= known);
    } else {
        let rest = incoming.drop_last();
        lemma_absorb_lists_each_key_once(known, rest);
        let k = absorb(known, rest);
        let f = incoming.last();
        if !knows(k, key_of(f)) {
            let r = k.push(f);
            assert forall|i: int, j: int| 0 <= i < j < r.len() implies key_of(r[i]) != key_of(r[j]) by {
                if j == k.len() {
                    assert(r[i] == k[i]);
                    if key_of(k[i]) == key_of(f) {
                        assert(knows(k, key_of(f)));
                    }
                }
            }
            assert forall|i: int| 0 <= i < known.len() implies knows(r, key_of(known[i])) by {
                let t = choose|t: int| 0 <= t < k.len() && key_of(k[t]) == key_of(known[i]);
                assert(r[t] == k[t]);
            }
            assert forall|i: int| 0 <= i < incoming.len() implies knows(r, key_of(incoming[i])) by {
                if i < rest.len() {
                    assert(rest[i] == incoming[i]);
                    let t = choose|t: int| 0 <= t < k.len() && key_of(k[t]) == key_of(rest[i]);
                    assert(r[t] == k[t]);
                } else {
                    assert(r[k.len() as int] == f);
                }
            }
            assert(r.subrange(0, known.len() as int) =~= k.subrange(0, known.len() as int));
        } else {
            assert forall|i: int| 0 <= i < incoming.len() implies knows(k, key_of(incoming[i])) by {
                if i < rest.len() {
                    assert(rest[i] == incoming[i]);
                }
            }
        }
    }
}

/// Failures whose keys are all listed already change nothing and count for no
/// notice.
pub proof fn lemma_known_failures_are_quiet(
    known: Seq<FailureView>,
    incoming: Seq<FailureView>,
    silenced: Seq<Seq<char>>,
)
    requires
        forall|i: int| 0 <= i < incoming.len() ==> knows(known, key_of(#[trigger] incoming[i])),
    ensures
        absorb(known, incoming) == known,
        fresh_unsilenced(known, incoming, silenced) == 0,
    decreases incoming.len(),
{
    if incoming.len() > 0 {
        let rest = incoming.drop_last();
        assert forall|i: int| 0 <= i < rest.len() implies knows(known, key_of(#[trigger] rest[i])) by {
            assert(rest[i] == incoming[i]);
        }
        lemma_known_failures_are_quiet(known, rest, silenced);
        assert(knows(known, key_of(incoming[incoming.len() - 1])));
    }
}

/// The same failures met again on the next run are neither listed again nor
/// noticed again: after a run's failures are taken in, taking in the same
/// failures leaves the list as it is and counts no new failure.
pub proof fn lemma_repeated_failures_notify_once(
    known: Seq<FailureView>,
    incoming: Seq<FailureView>,
    silenced: Seq<Seq<char>>,
)
    requires
        keys_distinct(known),
    ensures
        absorb(absorb(known, incoming), incoming) == absorb(known, incoming),
        fresh_unsilenced(absorb(known, incoming), incoming, silenced) == 0,
{
    lemma_absorb_lists_each_key_once(known, incoming);
    let after = absorb(known, incoming);
    assert forall|i: int| 0 <= i < incoming.len() implies knows(after, key_of(#[trigger] incoming[i])) by {}
    lemma_known_failures_are_quiet(after, incoming, silenced);
}

fn list_knows(list: &Vec<SyncFailure>, key: &Vec<char>) -> (r: bool)
    ensures
        r == knows(fviews(list@), key@),
{
    let mut i: usize = 0;
    while i < list.len()
        invariant
            i <= list@.len(),
            forall|t: int| 0 <= t < i ==> key_of(fviews(list@)[t]) != key@,
        decreases list@.len() - i,
    {
        let k = list[i].key();
        let kc = chars_of(k.as_str());
        if chars_equal(kc.as_slice(), key.as_slice()) {
            assert(key_of(fviews(list@)[i as int]) == key@);
            return true;
        }
        i = i + 1;
    }
    false
}

fn silenced_contains(silenced: &Vec<String>, key: &Vec<char>) -> (r: bool)
    ensures
        r == silenced@.map_values(|s: String| s@).contains(key@),
{
    let ghost views = silenced@.map_values(|s: String| s@);
    let mut i: usize = 0;
    while i < silenced.len()
        invariant
            i <= silenced@.len(),
            views == silenced@.map_values(|s: String| s@),
            forall|t: int| 0 <= t < i ==> views[t] != key@,
        decreases silenced@.len() - i,
    {
        let kc = chars_of(silenced[i].as_str());
        if chars_equal(kc.as_slice(), key.as_slice()) {
            assert(views[i as int] == key@);
            return true;
        }
        i = i + 1;
    }
    proof {
        if views.contains(key@) {
            let t = choose|t: int| 0 <= t < views.len() && views[t] == key@;
            assert(views[t] != key@);
        }
    }
    false
}

/// Drops the oldest items beyond `max`.
pub fn drop_oldest<T>(items: &mut Vec<T>, max: usize)
    ensures
        final(items)@ == keep_last(old(items)@, max as nat),
{
    if items.len() > max {
        let excess = items.len() - max;
        let ghost before = items@;
        let kept = items.split_off(excess);
        *items = kept;
        assert(items@ =~= keep_last(before, max as nat));
    }
}

/// Takes in the failures of a finished run: each one whose key is not listed yet
/// is listed, then the list is cut to its last [`MAX_TRACKED_FAILURES`]. Returns
/// how many were listed and how many of those have a key not among `silenced`.
pub fn take_in_failures(
    known: &mut Vec<SyncFailure>,
    incoming: &Vec<SyncFailure>,
    silenced: &Vec<String>,
) -> (r: (usize, usize))
    ensures
        fviews(final(known)@) == keep_last(
            absorb(fviews(old(known)@), fviews(incoming@)),
            MAX_TRACKED_FAILURES as nat,
        ),
        r.0 == absorb(fviews(old(known)@), fviews(incoming@)).len() - old(known)@.len(),
        r.1 == fresh_unsilenced(
            fviews(old(known)@),
            fviews(incoming@),
            silenced@.map_values(|s: String| s@),
        ),
{
    let ghost start = fviews(known@);
    let ghost inc = fviews(incoming@);
    let ghost sv = silenced@.map_values(|s: String| s@);
    let mut added: usize = 0;
    let mut fresh: usize = 0;
    let mut i: usize = 0;
    while i < incoming.len()
        invariant
            i <= incoming@.len(),
            sv == silenced@.map_values(|s: String| s@),
            inc == fviews(incoming@),
            fviews(known@) == absorb(start, inc.subrange(0, i as int)),
            known@.len() == start.len() + added,
            fresh == fresh_unsilenced(start, inc.subrange(0, i as int), sv),
            fresh <= added <= i,
        decreases incoming@.len() - i,
    {
        let ghost prefix = inc.subrange(0, i as int);
        let ghost next = inc.subrange(0, i + 1);
        assert(next.drop_last() =~= prefix);
        assert(next.last() == inc[i as int]);
        let key = chars_of(incoming[i].key().as_str());
        let ghost before = known@;
        if !list_knows(known, &key) {
            let quiet = silenced_contains(silenced, &key);
            let copy = SyncFailure {
                path: string_from(chars_of(incoming[i].path.as_str()).as_slice()),
                reason: string_from(chars_of(incoming[i].reason.as_str()).as_slice()),
            };
            known.push(copy);
            assert(fviews(known@) =~= fviews(before).push(inc[i as int]));
            added = added + 1;
            if !quiet {
                fresh = fresh + 1;
            }
        }
        i = i + 1;
    }
    assert(inc.subrange(0, inc.len() as int) =~= inc);
    let listed = added;
    let ghost full = known@;
    drop_oldest(known, MAX_TRACKED_FAILURES);
    assert(fviews(known@) =~= keep_last(fviews(full), MAX_TRACKED_FAILURES as nat));
    (listed, fresh)
}

} // verus!
