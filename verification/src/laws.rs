//! What holds of the store whatever is asked of it, proved over the model.

use candid::Principal;
use vstd::prelude::*;

use crate::model::{unknown_name, DeleteResult, Request, State};

verus! {

/// A store that never reclaims identifiers has no image under the identifier
/// it hands out next: an upload there never replaces an image.
pub proof fn lemma_next_id_is_unused(s: State)
    requires
        s.inv(),
        !s.reclaim_ids,
    ensures
        !s.images.contains_key(s.next_image_id),
{
}

/// Every request keeps the store's invariant, as long as an upload finds the
/// counter below `u64::MAX`.
pub proof fn lemma_step_keeps_inv(s: State, request: Request)
    requires
        s.inv(),
        request is Upload ==> s.next_image_id < u64::MAX,
    ensures
        s.step(request).inv(),
{
    match request {
        Request::SetName { .. } => {},
        Request::Upload { .. } => {},
        Request::Delete { caller, id } => {
            if s.delete_outcome(caller, id) == DeleteResult::Success {
                assert(s.images.dom().contains(id));
            }
        },
    }
}

/// Every sequence of requests keeps the store's invariant, as long as each
/// upload among them finds the counter below `u64::MAX`.
pub proof fn lemma_run_keeps_inv(s: State, requests: Seq<Request>)
    requires
        s.inv(),
        forall|k: int|
            0 <= k < requests.len() && #[trigger] requests[k] is Upload ==> s.before(
                requests,
                k,
            ).next_image_id < u64::MAX,
    ensures
        s.run(requests).inv(),
    decreases requests.len(),
{
    if requests.len() > 0 {
        let earlier = requests.drop_last();
        let last: int = requests.len() - 1;
        assert forall|k: int|
            0 <= k < earlier.len() && #[trigger] earlier[k] is Upload implies s.before(
            earlier,
            k,
        ).next_image_id < u64::MAX by {
            assert(earlier.take(k) =~= requests.take(k));
            assert(requests[k] is Upload);
        }
        lemma_run_keeps_inv(s, earlier);
        assert(requests.take(last) =~= earlier);
        assert(requests[last] is Upload ==> s.before(requests, last).next_image_id < u64::MAX);
        lemma_step_keeps_inv(s.run(earlier), requests.last());
    }
}

/// A deletion is refused as unauthorized exactly when the image exists and
/// another caller created it, reports a missing image exactly when none
/// exists, and succeeds exactly when the image exists and the caller created
/// it; only then is anything changed, and the image is gone.
pub proof fn lemma_delete_outcomes(s: State, caller: Principal, id: u64)
    ensures
        s.delete_outcome(caller, id) == DeleteResult::NotAuthorized <==> s.images.contains_key(id)
            && s.images[id].creator != caller,
        s.delete_outcome(caller, id) == DeleteResult::NotFound <==> !s.images.contains_key(id),
        s.delete_outcome(caller, id) == DeleteResult::Success <==> s.images.contains_key(id)
            && s.images[id].creator == caller,
        s.delete_outcome(caller, id) == DeleteResult::Success ==> !s.delete(
            caller,
            id,
        ).images.contains_key(id),
        s.delete_outcome(caller, id) != DeleteResult::Success ==> s.delete(caller, id) == s,
{
}

/// An image leaves the store only when its creator deletes it: a request
/// after which image `id` is gone is a deletion of `id` by the caller who
/// created it.
pub proof fn lemma_image_leaves_by_creator_only(s: State, request: Request, id: u64)
    requires
        s.images.contains_key(id),
        !s.step(request).images.contains_key(id),
    ensures
        request == (Request::Delete { caller: s.images[id].creator, id }),
{
}

/// No request takes a display name away: a caller who has one keeps one.
pub proof fn lemma_name_is_never_removed(s: State, request: Request, caller: Principal)
    requires
        s.user_names.contains_key(caller),
    ensures
        s.step(request).user_names.contains_key(caller),
{
}

/// Setting the same name twice leaves the store as setting it once does.
pub proof fn lemma_set_name_idempotent(s: State, caller: Principal, name: Seq<char>)
    ensures
        s.set_name(caller, name).set_name(caller, name) == s.set_name(caller, name),
{
    assert(s.user_names.insert(caller, name).insert(caller, name) =~= s.user_names.insert(
        caller,
        name,
    ));
}

/// Request number `k` takes the store it finds to the store that the next
/// request finds.
proof fn lemma_before_next(s: State, requests: Seq<Request>, k: int)
    requires
        0 <= k < requests.len(),
    ensures
        s.before(requests, k + 1) == s.before(requests, k).step(requests[k]),
{
    assert(requests.take(k + 1).drop_last() =~= requests.take(k));
}

/// The store after all requests is the one that a request behind the last
/// would find.
proof fn lemma_before_end(s: State, requests: Seq<Request>)
    ensures
        s.before(requests, requests.len() as int) == s.run(requests),
{
    assert(requests.take(requests.len() as int) =~= requests);
}

/// No request changes the counter policy.
proof fn lemma_policy_stays(s: State, requests: Seq<Request>, k: int)
    requires
        0 <= k <= requests.len(),
    ensures
        s.before(requests, k).reclaim_ids == s.reclaim_ids,
    decreases k,
{
    if k > 0 {
        lemma_policy_stays(s, requests, k - 1);
        lemma_before_next(s, requests, k - 1);
    } else {
        assert(requests.take(0) =~= Seq::<Request>::empty());
    }
}

/// While no deletion takes the counter back, it never falls.
proof fn lemma_counter_never_falls(s: State, requests: Seq<Request>, i: int, j: int)
    requires
        0 <= i <= j <= requests.len(),
        s.reclaim_ids ==> forall|k: int|
            0 <= k < requests.len() ==> !(#[trigger] requests[k] is Delete),
        forall|k: int|
            0 <= k < requests.len() && #[trigger] requests[k] is Upload ==> s.before(
                requests,
                k,
            ).next_image_id < u64::MAX,
    ensures
        s.before(requests, i).next_image_id <= s.before(requests, j).next_image_id,
    decreases j - i,
{
    if i < j {
        lemma_counter_never_falls(s, requests, i, j - 1);
        lemma_before_next(s, requests, j - 1);
        lemma_policy_stays(s, requests, j - 1);
        assert(requests[j - 1] is Upload ==> s.before(requests, j - 1).next_image_id < u64::MAX);
    }
}

/// Uploads are given strictly increasing identifiers, hence never the same
/// one twice, as long as no deletion takes the counter back: there is no
/// deletion among the requests, or the store does not reclaim identifiers.
/// Each upload is taken to find the counter below `u64::MAX`.
pub proof fn lemma_upload_ids_increase(s: State, requests: Seq<Request>, i: int, j: int)
    requires
        0 <= i < j < requests.len(),
        requests[i] is Upload,
        requests[j] is Upload,
        s.reclaim_ids ==> forall|k: int|
            0 <= k < requests.len() ==> !(#[trigger] requests[k] is Delete),
        forall|k: int|
            0 <= k < requests.len() && #[trigger] requests[k] is Upload ==> s.before(
                requests,
                k,
            ).next_image_id < u64::MAX,
    ensures
        s.before(requests, i).next_image_id < s.before(requests, j).next_image_id,
        s.before(requests, i).next_image_id != s.before(requests, j).next_image_id,
{
    lemma_before_next(s, requests, i);
    lemma_counter_never_falls(s, requests, i + 1, j);
}

/// Requests that neither file nor remove an image under `id` leave what
/// `get` returns for `id` as it was.
proof fn lemma_untouched_image_stays(s: State, requests: Seq<Request>, k: int, id: u64)
    requires
        0 <= k <= requests.len(),
        forall|m: int|
            k <= m < requests.len() ==> !s.before(requests, m).touches(#[trigger] requests[m], id),
    ensures
        s.run(requests).get(id) == s.before(requests, k).get(id),
    decreases requests.len() - k,
{
    if k < requests.len() {
        lemma_before_next(s, requests, k);
        lemma_untouched_image_stays(s, requests, k + 1, id);
        assert(!s.before(requests, k).touches(requests[k], id));
    } else {
        lemma_before_end(s, requests);
    }
}

/// `get` returns the bytes that were last uploaded under an identifier:
/// if request `k` is an upload, and no later request is an upload that is
/// given the same identifier or a successful deletion of it, then after all
/// requests `get` returns for that identifier exactly the bytes of request
/// `k`.
pub proof fn lemma_get_returns_last_upload(s: State, requests: Seq<Request>, k: int)
    requires
        0 <= k < requests.len(),
        requests[k] is Upload,
        forall|m: int|
            k < m < requests.len() ==> !s.before(requests, m).touches(
                #[trigger] requests[m],
                s.before(requests, k).next_image_id,
            ),
    ensures
        s.run(requests).get(s.before(requests, k).next_image_id) == Some(requests[k]->data),
{
    let id: u64 = s.before(requests, k).next_image_id;
    lemma_before_next(s, requests, k);
    lemma_untouched_image_stays(s, requests, k + 1, id);
}

/// An identifier without an image stays without one until an upload is
/// given it.
proof fn lemma_absent_image_stays(s: State, requests: Seq<Request>, k: int, id: u64)
    requires
        0 <= k <= requests.len(),
        s.before(requests, k).get(id) is None,
        forall|m: int|
            k <= m < requests.len() && #[trigger] requests[m] is Upload ==> s.before(
                requests,
                m,
            ).next_image_id != id,
    ensures
        s.run(requests).get(id) is None,
    decreases requests.len() - k,
{
    if k < requests.len() {
        lemma_before_next(s, requests, k);
        assert(requests[k] is Upload ==> s.before(requests, k).next_image_id != id);
        lemma_absent_image_stays(s, requests, k + 1, id);
    } else {
        lemma_before_end(s, requests);
    }
}

/// Once an image is deleted, `get` returns nothing for its identifier: if
/// request `k` is a successful deletion of `id`, and no later upload is
/// given `id`, then after all requests `get` returns `None` for `id`.
pub proof fn lemma_get_after_delete(
    s: State,
    requests: Seq<Request>,
    k: int,
    caller: Principal,
    id: u64,
)
    requires
        0 <= k < requests.len(),
        requests[k] == (Request::Delete { caller, id }),
        s.before(requests, k).delete_outcome(caller, id) == DeleteResult::Success,
        forall|m: int|
            k < m < requests.len() && #[trigger] requests[m] is Upload ==> s.before(
                requests,
                m,
            ).next_image_id != id,
    ensures
        s.run(requests).get(id) is None,
{
    lemma_before_next(s, requests, k);
    lemma_absent_image_stays(s, requests, k + 1, id);
}

/// Whether `request` sets the display name of `caller`.
pub open spec fn sets_name_of(request: Request, caller: Principal) -> bool {
    request matches Request::SetName { caller: who, .. } && who == caller
}

/// Requests that do not set `caller`'s name leave it, or its absence, as it
/// was.
proof fn lemma_name_stays(s: State, requests: Seq<Request>, k: int, caller: Principal)
    requires
        0 <= k <= requests.len(),
        forall|m: int| k <= m < requests.len() ==> !sets_name_of(#[trigger] requests[m], caller),
    ensures
        s.run(requests).user_names.contains_key(caller) == s.before(
            requests,
            k,
        ).user_names.contains_key(caller),
        s.run(requests).display_name(caller) == s.before(requests, k).display_name(caller),
    decreases requests.len() - k,
{
    if k < requests.len() {
        lemma_before_next(s, requests, k);
        assert(!sets_name_of(requests[k], caller));
        lemma_name_stays(s, requests, k + 1, caller);
    } else {
        lemma_before_end(s, requests);
    }
}

/// The images of a creator who has no name, and sets none, are listed under
/// `"Unknown"`: after the requests, every line of a listing that belongs to
/// an image of `caller` shows that name.
pub proof fn lemma_unnamed_creator_is_unknown(
    s: State,
    requests: Seq<Request>,
    caller: Principal,
    order: Seq<u64>,
    limit: Option<usize>,
)
    requires
        !s.user_names.contains_key(caller),
        forall|m: int| 0 <= m < requests.len() ==> !sets_name_of(#[trigger] requests[m], caller),
        s.run(requests).is_listing_order(order),
    ensures
        forall|id: u64|
            s.run(requests).images.contains_key(id) && s.run(requests).images[id].creator
                == caller ==> (#[trigger] s.run(requests).entry(id)).2 == unknown_name(),
        forall|i: int|
            0 <= i < s.run(requests).listing(order, limit).len() && s.run(
                requests,
            ).images[order[i]].creator == caller ==> (#[trigger] s.run(requests).listing(
                order,
                limit,
            )[i]).2 == unknown_name(),
{
    lemma_name_stays(s, requests, 0, caller);
    assert(requests.take(0) =~= Seq::<Request>::empty());
    lemma_listing_lines(s.run(requests), order, limit);
}

/// Once a caller has set a name, every image of theirs is listed under it,
/// those uploaded before the name was set and those uploaded after, until
/// they set another: if request `k` sets `caller`'s name to `name` and no
/// later request sets `caller`'s name, then after all requests every line of
/// a listing that belongs to an image of `caller` shows `name`.
pub proof fn lemma_name_shows_on_all_images(
    s: State,
    requests: Seq<Request>,
    k: int,
    caller: Principal,
    name: Seq<char>,
    order: Seq<u64>,
    limit: Option<usize>,
)
    requires
        0 <= k < requests.len(),
        requests[k] == (Request::SetName { caller, name }),
        forall|m: int| k < m < requests.len() ==> !sets_name_of(#[trigger] requests[m], caller),
        s.run(requests).is_listing_order(order),
    ensures
        forall|id: u64|
            s.run(requests).images.contains_key(id) && s.run(requests).images[id].creator
                == caller ==> (#[trigger] s.run(requests).entry(id)).2 == name,
        forall|i: int|
            0 <= i < s.run(requests).listing(order, limit).len() && s.run(
                requests,
            ).images[order[i]].creator == caller ==> (#[trigger] s.run(requests).listing(
                order,
                limit,
            )[i]).2 == name,
{
    lemma_before_next(s, requests, k);
    lemma_name_stays(s, requests, k + 1, caller);
    lemma_listing_lines(s.run(requests), order, limit);
}

/// A listing has as many lines as there are images, or as the limit allows
/// if that is fewer; each line is that of a live image, and no image has two.
/// Without a limit every image is listed.
pub proof fn lemma_listing_lines(s: State, order: Seq<u64>, limit: Option<usize>)
    requires
        s.is_listing_order(order),
    ensures
        s.listing(order, limit).len() == s.listing_len(limit),
        limit matches Some(n) ==> s.listing(order, limit).len() <= n,
        limit is None ==> s.listing(order, limit).len() == s.images.len(),
        forall|i: int|
            0 <= i < s.listing(order, limit).len() ==> s.images.contains_key(order[i])
                && #[trigger] s.listing(order, limit)[i] == s.entry(order[i]),
        forall|i: int, j: int|
            0 <= i < j < s.listing(order, limit).len() ==> (#[trigger] s.listing(order, limit)[i]).0
                != (#[trigger] s.listing(order, limit)[j]).0,
        limit is None ==> forall|id: u64| #[trigger]
            s.images.contains_key(id) ==> s.listing(order, limit).contains(s.entry(id)),
{
    order.unique_seq_to_set();
    let listing = s.listing(order, limit);
    assert forall|i: int| 0 <= i < listing.len() implies s.images.contains_key(order[i])
        && #[trigger] listing[i] == s.entry(order[i]) by {
        assert(order.to_set().contains(order[i]));
    }
    if limit is None {
        assert forall|id: u64| #[trigger] s.images.contains_key(id) implies listing.contains(
            s.entry(id),
        ) by {
            assert(order.to_set().contains(id));
            let i: int = choose|i: int| 0 <= i < order.len() && order[i] == id;
            assert(listing[i] == s.entry(id));
        }
    }
}

} // verus!
