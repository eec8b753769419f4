//! What holds of the handlers' effects, stated over the functions that their
//! contracts use.

use crate::digest::Batch;
use crate::digest::BatchDigest;
use crate::directory::Committee;
use crate::directory::WorkerId;
use crate::messages::Lookup;
use crate::messages::ReconfigureNotification;
use crate::messages::Round;
use crate::messages::WorkerPrimaryMessage;
use crate::pending::due_digests;
use crate::pending::is_due;
use crate::pending::refreshed;
use crate::pending::PendingEntry;
use crate::synchronizer::announcements;
use crate::synchronizer::answered;
use crate::synchronizer::available_digests;
use crate::synchronizer::collected;
use crate::synchronizer::delivered;
use crate::synchronizer::digests_with;
use crate::synchronizer::is_delivered;
use crate::synchronizer::lemma_digests_with;
use crate::synchronizer::missing_digests;
use crate::synchronizer::reconfigured;
use crate::synchronizer::requested;
use crate::synchronizer::response_keys;
use crate::synchronizer::SynchronizerView;
use vstd::prelude::*;

verus! {

/// A digest becomes outstanding only when the store was asked for it and
/// said that it lacks the batch.
pub proof fn law_inserted_were_absent(
    pending: Map<BatchDigest, PendingEntry>,
    lookups: Seq<(BatchDigest, Lookup)>,
    round: Round,
    now: u128,
    d: BatchDigest,
)
    requires
        requested(pending, lookups, round, now).contains_key(d),
        !pending.contains_key(d),
    ensures
        lookups.contains((d, Lookup::Absent)),
        requested(pending, lookups, round, now)[d] == (PendingEntry { round, last_issued: now }),
{
}

/// A command to synchronize leaves what was outstanding as it was.
pub proof fn law_synchronize_keeps_entries(
    pending: Map<BatchDigest, PendingEntry>,
    lookups: Seq<(BatchDigest, Lookup)>,
    round: Round,
    now: u128,
    d: BatchDigest,
)
    requires
        pending.contains_key(d),
    ensures
        requested(pending, lookups, round, now).contains_key(d),
        requested(pending, lookups, round, now)[d] == pending[d],
{
}

/// Nothing but a command to synchronize makes a digest outstanding: a
/// cleanup, a response, a tick of the timer and a notification leave only
/// digests outstanding that were so before.
pub proof fn law_other_events_insert_nothing(
    v: SynchronizerView,
    round: Round,
    batches: Seq<Batch>,
    now: u128,
    notification: ReconfigureNotification,
    d: BatchDigest,
)
    requires
        !v.pending.contains_key(d),
    ensures
        !collected(v.pending, round, v.gc_depth).contains_key(d),
        !answered(v.pending, batches).contains_key(d),
        !refreshed(v.pending, now, v.sync_retry_delay).contains_key(d),
        !reconfigured(v, notification).pending.contains_key(d),
{
}

/// After a cleanup at `round`, no outstanding request was made in round
/// `round - gc_depth` or earlier.
pub proof fn law_cleanup_drops_old_rounds(
    pending: Map<BatchDigest, PendingEntry>,
    round: Round,
    gc_depth: Round,
    d: BatchDigest,
)
    requires
        collected(pending, round, gc_depth).contains_key(d),
    ensures
        collected(pending, round, gc_depth)[d].round > round - gc_depth,
        pending.contains_key(d),
        collected(pending, round, gc_depth)[d] == pending[d],
{
}

/// A cleanup keeps every request made in a round later than
/// `round - gc_depth`.
pub proof fn law_cleanup_keeps_recent_rounds(
    pending: Map<BatchDigest, PendingEntry>,
    round: Round,
    gc_depth: Round,
    d: BatchDigest,
)
    requires
        pending.contains_key(d),
        pending[d].round > round - gc_depth,
    ensures
        collected(pending, round, gc_depth).contains_key(d),
{
}

/// After a new epoch nothing is outstanding, the round is 0, and the
/// committee and the directory are of the new committee's epoch.
pub proof fn law_new_epoch_starts_afresh(v: SynchronizerView, c: Committee)
    ensures
        reconfigured(v, ReconfigureNotification::NewEpoch(c)).pending == Map::<
            BatchDigest,
            PendingEntry,
        >::empty(),
        reconfigured(v, ReconfigureNotification::NewEpoch(c)).round == 0,
        reconfigured(v, ReconfigureNotification::NewEpoch(c)).cache_epoch == c.spec_epoch(),
        reconfigured(v, ReconfigureNotification::NewEpoch(c)).committee_epoch == c.spec_epoch(),
        reconfigured(v, ReconfigureNotification::NewEpoch(c)).phase == v.phase,
{
}

/// A change of the committee within the epoch leaves the round and the
/// outstanding requests as they were.
pub proof fn law_update_keeps_requests(v: SynchronizerView, c: Committee)
    ensures
        reconfigured(v, ReconfigureNotification::UpdateCommittee(c)).pending == v.pending,
        reconfigured(v, ReconfigureNotification::UpdateCommittee(c)).round == v.round,
        reconfigured(v, ReconfigureNotification::UpdateCommittee(c)).cache_epoch == c.spec_epoch(),
{
}

/// No digest is fetched twice at a time: a command to synchronize asks no
/// peer for a digest that is outstanding, and so none that an earlier command
/// has asked for and that has not been settled since.
pub proof fn law_no_second_fetch(
    pending: Map<BatchDigest, PendingEntry>,
    first: Seq<(BatchDigest, Lookup)>,
    round: Round,
    now: u128,
    second: Seq<(BatchDigest, Lookup)>,
)
    ensures
        missing_digests(pending, first).disjoint(pending.dom()),
        missing_digests(requested(pending, first, round, now), second).disjoint(
            missing_digests(pending, first),
        ),
        missing_digests(requested(pending, first, round, now), second).disjoint(pending.dom()),
{
}

/// A command to synchronize for digests that the store holds changes
/// nothing and fetches nothing, however often it is issued.
pub proof fn law_available_need_no_fetch(
    pending: Map<BatchDigest, PendingEntry>,
    lookups: Seq<(BatchDigest, Lookup)>,
    round: Round,
    now: u128,
)
    requires
        forall|i: int| 0 <= i < lookups.len() ==> (#[trigger] lookups[i]).1 == Lookup::Present,
    ensures
        missing_digests(pending, lookups) == Set::<BatchDigest>::empty(),
        requested(pending, lookups, round, now) == pending,
{
    assert(missing_digests(pending, lookups) =~= Set::<BatchDigest>::empty()) by {
        assert forall|d: BatchDigest| !missing_digests(pending, lookups).contains(d) by {
            if lookups.contains((d, Lookup::Absent)) {
                let k = choose|k: int| 0 <= k < lookups.len() && lookups[k] == (d, Lookup::Absent);
                assert(lookups[k].1 == Lookup::Present);
            }
        }
    }
    assert(requested(pending, lookups, round, now) =~= pending);
}

/// A command to synchronize for one digest that the store holds, and that is
/// not outstanding, announces it to the primary exactly once and asks no peer
/// for anything, however often the digest is named.
pub proof fn law_one_reply_for_one_digest(
    pending: Map<BatchDigest, PendingEntry>,
    lookups: Seq<(BatchDigest, Lookup)>,
    d: BatchDigest,
    id: WorkerId,
)
    requires
        lookups.len() > 0,
        forall|i: int| 0 <= i < lookups.len() ==> #[trigger] lookups[i] == (d, Lookup::Present),
        !pending.contains_key(d),
    ensures
        digests_with(pending, lookups, Lookup::Present) == seq![d],
        announcements(digests_with(pending, lookups, Lookup::Present), id)
            == seq![WorkerPrimaryMessage::OthersBatch(d, id)],
        digests_with(pending, lookups, Lookup::Absent) == Seq::<BatchDigest>::empty(),
{
    let announced = digests_with(pending, lookups, Lookup::Present);
    let fetched = digests_with(pending, lookups, Lookup::Absent);
    lemma_digests_with(pending, lookups, Lookup::Present);
    lemma_digests_with(pending, lookups, Lookup::Absent);
    assert(lookups[0] == (d, Lookup::Present));
    assert(available_digests(pending, lookups).contains(d));
    assert(announced.to_set().contains(d));
    assert forall|k: int| 0 <= k < announced.len() implies announced[k] == d by {
        assert(announced.to_set().contains(announced[k]));
        let j = choose|j: int|
            0 <= j < lookups.len() && lookups[j] == (announced[k], Lookup::Present);
        assert(lookups[j] == (d, Lookup::Present));
    }
    if announced.len() >= 2 {
        assert(announced[0] == announced[1]);
    }
    assert(announced.len() == 1) by {
        if announced.len() == 0 {
            let k = choose|k: int| 0 <= k < announced.len() && announced[k] == d;
        }
    }
    assert(announced =~= seq![d]);
    assert(announcements(announced, id) =~= seq![WorkerPrimaryMessage::OthersBatch(d, id)]);
    if fetched.len() > 0 {
        assert(fetched.to_set().contains(fetched[0]));
        let j = choose|j: int|
            0 <= j < lookups.len() && lookups[j] == (fetched[0], Lookup::Absent);
        assert(lookups[j] == (d, Lookup::Present));
    }
    assert(fetched =~= Seq::<BatchDigest>::empty());
}

/// A tick of the timer gives every request that is due the time stamp
/// `now`, and leaves its round, and every other request, as they were.
pub proof fn law_due_entries_are_refreshed(
    pending: Map<BatchDigest, PendingEntry>,
    now: u128,
    delay: u128,
    d: BatchDigest,
)
    requires
        pending.contains_key(d),
    ensures
        refreshed(pending, now, delay).contains_key(d),
        refreshed(pending, now, delay)[d].round == pending[d].round,
        due_digests(pending, now, delay).contains(d) == is_due(pending[d], now, delay),
        is_due(pending[d], now, delay) ==> refreshed(pending, now, delay)[d].last_issued == now,
        !is_due(pending[d], now, delay) ==> refreshed(pending, now, delay)[d] == pending[d],
{
}

/// A request that was retried at `now` is not due again before
/// `now + delay`.
pub proof fn law_refreshed_wait_a_full_delay(
    pending: Map<BatchDigest, PendingEntry>,
    now: u128,
    delay: u128,
    later: u128,
    d: BatchDigest,
)
    requires
        pending.contains_key(d),
        is_due(pending[d], now, delay),
        later < now + delay,
    ensures
        !due_digests(refreshed(pending, now, delay), later, delay).contains(d),
{
}

/// The batches of a response that are handed on are as many as there are
/// outstanding digests among the digests of its batches.
pub proof fn law_delivered_count(pending: Map<BatchDigest, PendingEntry>, batches: Seq<Batch>)
    ensures
        response_keys(batches).to_set().intersect(pending.dom()).finite(),
        delivered(pending, batches).len() == response_keys(batches).to_set().intersect(
            pending.dom(),
        ).len(),
    decreases batches.len(),
{
    let keys = response_keys(batches);
    vstd::seq_lib::seq_to_set_is_finite(keys);
    if batches.len() == 0 {
        assert(keys.to_set().intersect(pending.dom()) =~= Set::<BatchDigest>::empty());
    } else {
        let shorter = batches.drop_last();
        let before = response_keys(shorter);
        let last = batches.len() - 1;
        let key = keys[last];
        law_delivered_count(pending, shorter);
        vstd::seq_lib::seq_to_set_is_finite(before);
        assert(keys.take(last) =~= before);
        assert(keys.to_set() =~= before.to_set().insert(key)) by {
            assert forall|d: BatchDigest| keys.contains(d) == (before.contains(d) || d == key) by {
                if keys.contains(d) {
                    let k = choose|k: int| 0 <= k < keys.len() && keys[k] == d;
                    if k < last {
                        assert(before[k] == d);
                    }
                }
                if before.contains(d) {
                    let k = choose|k: int| 0 <= k < before.len() && before[k] == d;
                    assert(keys[k] == d);
                }
                if d == key {
                    assert(keys[last] == d);
                }
            }
        }
        let met = before.to_set().intersect(pending.dom());
        if is_delivered(pending, keys, last) {
            assert(!before.to_set().contains(key));
            assert(keys.to_set().intersect(pending.dom()) =~= met.insert(key));
        } else {
            assert(keys.to_set().intersect(pending.dom()) =~= met);
        }
    }
}

/// The batches that are handed on keep the order of the response: they are
/// the batches at the places where a digest that is outstanding occurs
/// for the first time.
pub proof fn law_delivered_in_order(
    pending: Map<BatchDigest, PendingEntry>,
    batches: Seq<Batch>,
) -> (places: Seq<int>)
    ensures
        places.len() == delivered(pending, batches).len(),
        forall|k: int|
            0 <= k < places.len() ==> 0 <= #[trigger] places[k] < batches.len() && delivered(
                pending,
                batches,
            )[k] == batches[places[k]] && is_delivered(
                pending,
                response_keys(batches),
                places[k],
            ),
        forall|a: int, b: int| 0 <= a < b < places.len() ==> places[a] < places[b],
        forall|i: int|
            0 <= i < batches.len() && is_delivered(pending, response_keys(batches), i)
                ==> places.contains(i),
    decreases batches.len(),
{
    if batches.len() == 0 {
        Seq::empty()
    } else {
        let shorter = batches.drop_last();
        let last = batches.len() - 1;
        let keys = response_keys(batches);
        let before = law_delivered_in_order(pending, shorter);
        assert(response_keys(shorter) =~= keys.take(last));
        assert forall|i: int| 0 <= i < last implies is_delivered(pending, keys, i) == is_delivered(
            pending,
            response_keys(shorter),
            i,
        ) by {
            assert(keys.take(i) =~= response_keys(shorter).take(i));
        }
        let places = if is_delivered(pending, keys, last) {
            before.push(last)
        } else {
            before
        };
        assert forall|i: int|
            0 <= i < batches.len() && is_delivered(pending, keys, i) implies places.contains(
            i,
        ) by {
            if i < last {
                assert(keys.take(i) =~= response_keys(shorter).take(i));
                assert(is_delivered(pending, response_keys(shorter), i));
                assert(before.contains(i));
                let k = choose|k: int| 0 <= k < before.len() && before[k] == i;
                assert(places[k] == i);
            } else {
                assert(places[before.len() as int] == i);
            }
        }
        places
    }
}

} // verus!
