//! The mathematical model of the store: what a store holds, and what each
//! operation makes of it. The executable store's contracts and the laws of the
//! library are stated over these definitions.

use candid::Principal;
use vstd::prelude::*;

verus! {

/// The outcome of a request to delete an image.
#[derive(Clone, Copy, Debug, PartialEq, Eq, Structural)]
pub enum DeleteResult {
    /// The image existed, the caller created it, and it is gone now.
    Success,
    /// No image has the identifier.
    NotFound,
    /// The image exists and somebody else created it.
    NotAuthorized,
}

/// An image as the model sees it.
pub struct ImageView {
    pub id: u64,
    pub name: Seq<char>,
    pub creator: Principal,
    pub data: Seq<u8>,
}

/// One line of a listing: identifier, image name, the creator's display name
/// and the image's bytes.
pub type ListingEntry = (u64, Seq<char>, Seq<char>, Seq<u8>);

/// The display name of a creator who never set one.
pub open spec fn unknown_name() -> Seq<char> {
    "Unknown"@
}

/// A request that changes the store.
pub enum Request {
    /// `caller` sets their display name.
    SetName { caller: Principal, name: Seq<char> },
    /// `caller` uploads `data` under `name`.
    Upload { caller: Principal, name: Seq<char>, data: Seq<u8> },
    /// `caller` asks to delete image `id`.
    Delete { caller: Principal, id: u64 },
}

/// Everything a store holds.
pub struct State {
    /// The live images by identifier.
    pub images: Map<u64, ImageView>,
    /// The display name of each caller that has set one.
    pub user_names: Map<Principal, Seq<char>>,
    /// The identifier that the next upload is given.
    pub next_image_id: u64,
    /// The counter policy: whether a successful deletion takes the counter
    /// back by one, so that identifiers are handed out again.
    pub reclaim_ids: bool,
}

impl State {
    /// The store that holds nothing, under the given counter policy.
    pub open spec fn empty(reclaim_ids: bool) -> State {
        State {
            images: Map::empty(),
            user_names: Map::empty(),
            next_image_id: 0,
            reclaim_ids,
        }
    }

    /// What holds of every store that was built by the operations below from
    /// an empty one:
    /// each image is filed under its own identifier, the counter is at least
    /// the number of live images, and, where identifiers are never
    /// reclaimed, every live identifier lies below the counter.
    pub open spec fn inv(self) -> bool {
        &&& self.images.dom().finite()
        &&& forall|id: u64| #[trigger]
            self.images.contains_key(id) ==> self.images[id].id == id
        &&& self.images.dom().len() <= self.next_image_id
        &&& !self.reclaim_ids ==> forall|id: u64| #[trigger]
            self.images.contains_key(id) ==> id < self.next_image_id
    }

    /// The store after `caller` has set the display name `name`: the name
    /// replaces whatever `caller` had before, and nothing else changes.
    pub open spec fn set_name(self, caller: Principal, name: Seq<char>) -> State {
        State { user_names: self.user_names.insert(caller, name), ..self }
    }

    /// The store after `caller` has uploaded `data` under `name`. The image
    /// gets the identifier `self.next_image_id`, is filed under it whatever
    /// was there, and the counter goes up by one.
    pub open spec fn upload(self, caller: Principal, name: Seq<char>, data: Seq<u8>) -> State
        recommends
            self.next_image_id < u64::MAX,
    {
        let id: u64 = self.next_image_id;
        State {
            images: self.images.insert(id, ImageView { id, name, creator: caller, data }),
            next_image_id: (id + 1) as u64,
            ..self
        }
    }

    /// What a request of `caller` to delete image `id` comes to.
    pub open spec fn delete_outcome(self, caller: Principal, id: u64) -> DeleteResult {
        if !self.images.contains_key(id) {
            DeleteResult::NotFound
        } else if self.images[id].creator == caller {
            DeleteResult::Success
        } else {
            DeleteResult::NotAuthorized
        }
    }

    /// The store after `caller` has asked to delete image `id`. Only a
    /// successful request changes anything: the image goes, and under the
    /// reclaiming policy the counter goes down by one.
    pub open spec fn delete(self, caller: Principal, id: u64) -> State {
        if self.delete_outcome(caller, id) == DeleteResult::Success {
            State {
                images: self.images.remove(id),
                next_image_id: if self.reclaim_ids {
                    (self.next_image_id - 1) as u64
                } else {
                    self.next_image_id
                },
                ..self
            }
        } else {
            self
        }
    }

    /// The store after one request.
    pub open spec fn step(self, request: Request) -> State {
        match request {
            Request::SetName { caller, name } => self.set_name(caller, name),
            Request::Upload { caller, name, data } => self.upload(caller, name, data),
            Request::Delete { caller, id } => self.delete(caller, id),
        }
    }

    /// The store after a sequence of requests, served first to last.
    pub open spec fn run(self, requests: Seq<Request>) -> State
        decreases requests.len(),
    {
        if requests.len() == 0 {
            self
        } else {
            self.run(requests.drop_last()).step(requests.last())
        }
    }

    /// The store that request number `k` of `requests` finds: the one after
    /// the `k` requests before it.
    pub open spec fn before(self, requests: Seq<Request>, k: int) -> State
        recommends
            0 <= k <= requests.len(),
    {
        self.run(requests.take(k))
    }

    /// Whether serving `request` files or removes an image under `id`: it is
    /// an upload that is given `id`, or a successful deletion of `id`.
    pub open spec fn touches(self, request: Request, id: u64) -> bool {
        match request {
            Request::SetName { .. } => false,
            Request::Upload { .. } => self.next_image_id == id,
            Request::Delete { caller, id: target } => target == id && self.delete_outcome(
                caller,
                id,
            ) == DeleteResult::Success,
        }
    }

    /// The bytes of image `id`, for whoever asks.
    pub open spec fn get(self, id: u64) -> Option<Seq<u8>> {
        if self.images.contains_key(id) {
            Some(self.images[id].data)
        } else {
            None
        }
    }

    /// The name shown for `caller`: the one they set last, or
    /// [`unknown_name`] if they never set any.
    pub open spec fn display_name(self, caller: Principal) -> Seq<char> {
        if self.user_names.contains_key(caller) {
            self.user_names[caller]
        } else {
            unknown_name()
        }
    }

    /// The listing line of image `id`.
    pub open spec fn entry(self, id: u64) -> ListingEntry
        recommends
            self.images.contains_key(id),
    {
        let image = self.images[id];
        (id, image.name, self.display_name(image.creator), image.data)
    }

    /// Whether `order` walks every live image exactly once.
    pub open spec fn is_listing_order(self, order: Seq<u64>) -> bool {
        &&& order.no_duplicates()
        &&& order.to_set() == self.images.dom()
    }

    /// How many lines a listing of at most `limit` images has.
    pub open spec fn listing_len(self, limit: Option<usize>) -> nat {
        match limit {
            Some(n) if n < self.images.len() => n as nat,
            _ => self.images.len(),
        }
    }

    /// The listing that walks the images in `order` and stops after `limit`
    /// lines, if a limit is given.
    pub open spec fn listing(self, order: Seq<u64>, limit: Option<usize>) -> Seq<ListingEntry>
        recommends
            self.is_listing_order(order),
    {
        order.take(self.listing_len(limit) as int).map_values(|id: u64| self.entry(id))
    }
}

} // verus!
