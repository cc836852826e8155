//! The store itself: the images, the display names and the identifier
//! counter, with the six operations on them.

use candid::Principal;
use std::collections::HashMap;
use vstd::prelude::*;
use vstd::std_specs::hash::{into_iter, spec_hash_map_iter};
use vstd::std_specs::iter::IteratorSpec;

use crate::model::{DeleteResult, ImageView, State};
use crate::names::UserNames;
use crate::principal::same_principal;

verus! {

broadcast use vstd::std_specs::hash::group_hash_axioms;

/// A named blob of bytes, owned by the caller who uploaded it.
pub struct Image {
    pub id: u64,
    pub name: String,
    pub creator: Principal,
    pub data: Vec<u8>,
}

impl View for Image {
    type V = ImageView;

    open spec fn view(&self) -> ImageView {
        ImageView { id: self.id, name: self.name@, creator: self.creator, data: self.data@ }
    }
}

/// All state of the service, owned by one value. Mutating operations take it
/// by exclusive reference, reading ones by shared reference.
pub struct Store {
    images: HashMap<u64, Image>,
    user_names: UserNames,
    next_image_id: u64,
    reclaim_ids: bool,
}

impl View for Store {
    type V = State;

    closed spec fn view(&self) -> State {
        State {
            images: image_views(self.images@),
            user_names: self.user_names@,
            next_image_id: self.next_image_id,
            reclaim_ids: self.reclaim_ids,
        }
    }
}

impl Default for Store {
    /// The empty store that reclaims identifiers.
    fn default() -> (store: Store)
        ensures
            store@ == State::empty(true),
            store@.inv(),
    {
        Store::new(true)
    }
}

/// The images of a map, each by its view.
spec fn image_views(images: Map<u64, Image>) -> Map<u64, ImageView> {
    images.map_values(|image: Image| image@)
}

/// The identifiers of `pairs`, in the same order.
spec fn ids_of(pairs: Seq<(u64, Image)>) -> Seq<u64> {
    pairs.map_values(|pair: (u64, Image)| pair.0)
}

impl Store {
    #[verifier::type_invariant]
    spec fn wf(self) -> bool {
        self@.inv()
    }

    /// The order in which this store's images are listed: the order in which
    /// its image map is walked. It depends on nothing but the store.
    pub closed spec fn listing_order(&self) -> Seq<u64> {
        ids_of(into_iter(spec_hash_map_iter(&self.images)))
    }

    /// A store without images or names, whose counter starts at 0.
    ///
    /// With `reclaim_ids` every successful deletion takes the counter back by
    /// one, so an identifier may be handed out again, even one that a live
    /// image still has. Without it the counter only grows and no identifier
    /// is ever given twice.
    pub fn new(reclaim_ids: bool) -> (store: Store)
        ensures
            store@ == State::empty(reclaim_ids),
            store@.inv(),
    {
        let images: HashMap<u64, Image> = HashMap::new();
        assert(image_views(images@) =~= Map::<u64, ImageView>::empty());
        Store { images, user_names: UserNames::new(), next_image_id: 0, reclaim_ids }
    }

    /// The identifier that the next upload is given.
    pub fn next_image_id(&self) -> (id: u64)
        ensures
            id == self@.next_image_id,
    {
        self.next_image_id
    }

    /// Whether this store takes its counter back on a successful deletion.
    pub fn reclaims_ids(&self) -> (reclaims: bool)
        ensures
            reclaims == self@.reclaim_ids,
    {
        self.reclaim_ids
    }

    /// Records `name` as the display name of `caller`, in place of any
    /// earlier one. The name is taken as it is.
    pub fn set_name(&mut self, caller: Principal, name: String)
        ensures
            final(self)@ == old(self)@.set_name(caller, name@),
            final(self)@.inv(),
    {
        proof {
            use_type_invariant(&*self);
        }
        let mut user_names = UserNames::new();
        std::mem::swap(&mut user_names, &mut self.user_names);
        user_names.insert(caller, name);
        self.user_names = user_names;
    }

    /// Stores a new image of `caller` and returns its identifier, which is
    /// the counter's value before the call. The counter goes up by one. An
    /// image that had this identifier is replaced, which can only happen
    /// under the reclaiming policy.
    pub fn upload_image(&mut self, caller: Principal, name: String, data: Vec<u8>) -> (id: u64)
        requires
            old(self)@.next_image_id < u64::MAX,
        ensures
            id == old(self)@.next_image_id,
            final(self)@ == old(self)@.upload(caller, name@, data@),
            final(self)@.inv(),
    {
        proof {
            use_type_invariant(&*self);
        }
        let id: u64 = self.next_image_id;
        self.next_image_id += 1;
        let mut images: HashMap<u64, Image> = HashMap::new();
        proof {
            lemma_views_empty(images@);
        }
        std::mem::swap(&mut images, &mut self.images);
        let image = Image { id, name, creator: caller, data };
        proof {
            lemma_views_insert(images@, id, image);
        }
        images.insert(id, image);
        self.images = images;
        id
    }

    /// Deletes image `id` if `caller` created it. Otherwise nothing changes:
    /// the result says whether the image is missing or belongs to another.
    /// Under the reclaiming policy a successful deletion takes the counter
    /// back by one.
    pub fn delete_image(&mut self, caller: Principal, id: u64) -> (result: DeleteResult)
        ensures
            result == old(self)@.delete_outcome(caller, id),
            final(self)@ == old(self)@.delete(caller, id),
            final(self)@.inv(),
    {
        proof {
            use_type_invariant(&*self);
        }
        let owned = match self.images.get(&id) {
            Some(image) => Some(same_principal(&image.creator, &caller)),
            None => None,
        };
        match owned {
            Some(true) => {
                let mut images: HashMap<u64, Image> = HashMap::new();
                proof {
                    lemma_views_empty(images@);
                }
                std::mem::swap(&mut images, &mut self.images);
                proof {
                    lemma_views_remove(images@, id);
                }
                images.remove(&id);
                self.images = images;
                if self.reclaim_ids {
                    self.next_image_id -= 1;
                }
                DeleteResult::Success
            },
            Some(false) => DeleteResult::NotAuthorized,
            None => DeleteResult::NotFound,
        }
    }

    /// The bytes of image `id`, for any caller, or `None` if there is no
    /// such image.
    pub fn get_image(&self, id: u64) -> (bytes: Option<Vec<u8>>)
        ensures
            self@.inv(),
            match bytes {
                Some(data) => self@.get(id) == Some(data@),
                None => self@.get(id) is None,
            },
    {
        proof {
            use_type_invariant(self);
        }
        match self.images.get(&id) {
            Some(image) => {
                let data = image.data.clone();
                assert(data@ =~= image.data@);
                Some(data)
            },
            None => None,
        }
    }

    /// Lists the images in [`Store::listing_order`], each with its
    /// identifier, its name, the display name of its creator as it is now
    /// (or `"Unknown"`) and its bytes; at most `limit` of them if a limit is
    /// given, else all.
    pub fn get_all_images(&self, limit: Option<usize>) -> (listing: Vec<
        (u64, String, String, Vec<u8>),
    >)
        ensures
            self@.inv(),
            self@.is_listing_order(self.listing_order()),
            listing.deep_view() == self@.listing(self.listing_order(), limit),
            listing@.len() == self@.listing_len(limit),
            limit matches Some(n) ==> listing@.len() <= n,
            limit is None ==> listing@.len() == self@.images.len(),
    {
        proof {
            use_type_invariant(self);
        }
        let total: usize = self.images.len();
        let wanted: usize = match limit {
            Some(n) => if n < total { n } else { total },
            None => total,
        };
        let ghost pairs = into_iter(spec_hash_map_iter(&self.images));
        let ghost order = self.listing_order();
        let mut listing: Vec<(u64, String, String, Vec<u8>)> = Vec::new();
        for pair in it: self.images.iter()
            invariant_except_break
                listing@.len() == if it.index() < wanted { it.index() } else { wanted as int },
            invariant
                it.seq().unref() == pairs,
                pairs.no_duplicates(),
                order == ids_of(pairs),
                pairs.len() == total,
                pairs.to_set() == self.images@.kv_pairs(),
                wanted <= total,
                listing@.len() <= wanted,
                forall|j: int|
                    0 <= j < listing@.len() ==> (#[trigger] listing@[j]).deep_view()
                        == self@.entry(order[j]),
            ensures
                listing@.len() == wanted,
        {
            if listing.len() >= wanted {
                break;
            }
            let (id, image) = pair;
            assert(pairs.to_set().contains(pairs[listing@.len() as int]));
            let creator_name = match self.user_names.get(&image.creator) {
                Some(name) => name.clone(),
                None => "Unknown".to_owned(),
            };
            let data = image.data.clone();
            assert(data@ =~= image.data@);
            listing.push((*id, image.name.clone(), creator_name, data));
        }
        proof {
            lemma_ids_are_listing_order(self.images@, pairs);
            assert(self@.images.dom() =~= self.images@.dom());
            assert(listing.deep_view() =~= self@.listing(order, limit));
        }
        listing
    }
}

/// No images have no views.
proof fn lemma_views_empty(images: Map<u64, Image>)
    requires
        images == Map::<u64, Image>::empty(),
    ensures
        image_views(images) == Map::<u64, ImageView>::empty(),
{
    assert(image_views(images) =~= Map::<u64, ImageView>::empty());
}

/// Filing an image files its view.
proof fn lemma_views_insert(images: Map<u64, Image>, id: u64, image: Image)
    ensures
        image_views(images.insert(id, image)) == image_views(images).insert(id, image@),
{
    assert(image_views(images.insert(id, image)) =~= image_views(images).insert(id, image@));
}

/// Removing an image removes its view.
proof fn lemma_views_remove(images: Map<u64, Image>, id: u64)
    ensures
        image_views(images.remove(id)) == image_views(images).remove(id),
{
    assert(image_views(images.remove(id)) =~= image_views(images).remove(id));
}

/// The pairs that a walk of `images` yields name every key once.
proof fn lemma_ids_are_listing_order(images: Map<u64, Image>, pairs: Seq<(u64, Image)>)
    requires
        pairs.no_duplicates(),
        pairs.to_set() == images.kv_pairs(),
    ensures
        ids_of(pairs).no_duplicates(),
        ids_of(pairs).to_set() == image_views(images).dom(),
{
    let ids = ids_of(pairs);
    assert forall|j: int| 0 <= j < pairs.len() implies images.contains_key(
        (#[trigger] pairs[j]).0,
    ) && images[pairs[j].0] == pairs[j].1 by {
        assert(pairs.to_set().contains(pairs[j]));
    }
    assert forall|i: int, j: int| 0 <= i < ids.len() && 0 <= j < ids.len() && i != j implies ids[i]
        != ids[j] by {
        if ids[i] == ids[j] {
            assert(pairs[i].1 == images[pairs[i].0]);
            assert(pairs[j].1 == images[pairs[j].0]);
            assert(pairs[i] == pairs[j]);
        }
    }
    assert forall|id: u64| ids.to_set().contains(id) == images.dom().contains(id) by {
        if ids.to_set().contains(id) {
            let j: int = choose|j: int| 0 <= j < ids.len() && ids[j] == id;
            assert(images.contains_key(pairs[j].0));
        }
        if images.contains_key(id) {
            let pair = (id, images[id]);
            assert(images.kv_pairs().contains(pair));
            assert(pairs.to_set().contains(pair));
            let j: int = choose|j: int| 0 <= j < pairs.len() && pairs[j] == pair;
            assert(ids[j] == id);
        }
    }
    assert(ids.to_set() =~= image_views(images).dom());
}

} // verus!
