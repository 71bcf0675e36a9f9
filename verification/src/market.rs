//! The asset marketplace: unique-asset minting, collection grouping,
//! deposit-metered edits, sale, credit redemption, renewal, and the
//! periodic expiry sweep.
//!
//! Every record's storage is backed by a currency deposit proportional to
//! its serialized size, reserved from the account that holds the record
//! and released when the record is deleted, resized or sold.

use vstd::prelude::*;

use crate::AccountId;
use crate::Balance;
use crate::GRACE_SECONDS;
use crate::Moment;
use crate::SECONDS_PER_MONTH;
use crate::assoc::assoc_get;
use crate::assoc::lemma_assoc_get_absent;
use crate::assoc::lemma_assoc_get_first;
use crate::assoc::lemma_assoc_get_push;
use crate::assoc::lemma_assoc_get_remove;
use crate::assoc::lemma_assoc_get_update;
use crate::assoc::unique_keys;
use crate::currency::Currency;
use crate::currency::min_int;
use crate::currency::reserve_effect;
use crate::currency::rereserve_effect;
use crate::currency::unreserve_effect;
use crate::registry::BrandRegistry;
use crate::token::TokenLedger;
use crate::token::spec_age;
use crate::token::sum_amounts;

verus! {

/// A group of assets under one title, with a deposit backing its storage.
#[derive(PartialEq, Debug)]
pub struct NFTCollection {
    pub title: Vec<u8>,
    pub description: Option<Vec<u8>>,
    pub creator: AccountId,
    pub deposit: Balance,
    pub expire: u8,
    pub created_at: Moment,
}

/// A unique, tradable asset record.
#[derive(PartialEq, Debug)]
pub struct NonFungibleToken {
    pub id: u128,
    pub title: Vec<u8>,
    pub description: Option<Vec<u8>>,
    pub media: Vec<u8>,
    pub creator: AccountId,
    pub owner: AccountId,
    pub collection_id: u128,
    pub deposit: Balance,
    pub price: Balance,
    pub expire: u8,
    pub created_at: Moment,
    pub renew_time: Moment,
    pub renew_fee: Balance,
}

#[derive(Clone, Copy, PartialEq, Eq, Structural, Debug)]
pub enum Error {
    NoNFT,
    NoCollection,
    NotOwner,
    DuplicateNFT,
    DuplicateCollection,
    TransferToSelf,
    NotSelling,
    TokenInCollection,
    BrandNotExist,
    NotPayExactAmount,
    Invalid,
    InsufficientBalance,
    NotSupportedYet,
}

#[derive(Clone, Copy, PartialEq, Eq, Structural, Debug)]
pub enum Event {
    Created { nft: u128, owner: AccountId },
    CreatedCollection { collection: u128, owner: AccountId },
    Edited { nft: u128, owner: AccountId },
    EditedCollection { collection: u128, owner: AccountId },
    PriceSet { nft: u128, price: Option<Balance> },
    BurntNFT { nft: u128 },
    DestroyCollection { collection: u128 },
    Bought { seller: AccountId, buyer: AccountId, nft: u128, price: Balance },
    Transferred { from: AccountId, to: AccountId, nft: u128 },
    ReturnedOverdueNFT { nft_id: u128 },
    RenewNFT { nft: u128, price: Balance },
}

/// How many bytes an optional description holds.
pub open spec fn spec_desc_len(d: Option<Vec<u8>>) -> int {
    match d {
        Some(v) => v@.len() as int,
        None => 0,
    }
}

/// An optional byte string, read mathematically.
pub open spec fn desc_view(d: Option<Vec<u8>>) -> Option<Seq<u8>> {
    match d {
        Some(v) => Some(v@),
        None => None,
    }
}

/// An asset is overdue once it has left its issuing brand and outlived
/// its lifetime plus the grace period.
pub open spec fn nft_overdue(n: NonFungibleToken, now: Moment) -> bool {
    spec_age(n.created_at, now) > (SECONDS_PER_MONTH as int) * (n.expire as int)
        + GRACE_SECONDS && n.owner != n.creator
}

/// What one sweep does to one asset: an overdue asset returns to its
/// issuing brand, any other is left alone.
pub open spec fn sweep_nft(n: NonFungibleToken, now: Moment) -> NonFungibleToken {
    if nft_overdue(n, now) {
        NonFungibleToken {
            id: n.id,
            title: n.title,
            description: n.description,
            media: n.media,
            creator: n.creator,
            owner: n.creator,
            collection_id: n.collection_id,
            deposit: n.deposit,
            price: n.price,
            expire: n.expire,
            created_at: n.created_at,
            renew_time: n.renew_time,
            renew_fee: n.renew_fee,
        }
    } else {
        n
    }
}

/// What one sweep does to the whole asset store.
pub open spec fn sweep_tokens(s: Seq<(u128, NonFungibleToken)>, now: Moment) -> Seq<
    (u128, NonFungibleToken),
> {
    s.map_values(|p: (u128, NonFungibleToken)| (p.0, sweep_nft(p.1, now)))
}

/// The events one sweep emits: one per asset it returns, in store order.
pub open spec fn sweep_events(s: Seq<(u128, NonFungibleToken)>, now: Moment) -> Seq<Event>
    decreases s.len(),
{
    if s.len() == 0 {
        Seq::<Event>::empty()
    } else if nft_overdue(s[0].1, now) {
        seq![Event::ReturnedOverdueNFT { nft_id: s[0].1.id }] + sweep_events(s.drop_first(), now)
    } else {
        sweep_events(s.drop_first(), now)
    }
}

pub proof fn lemma_sweep_events_snoc(s: Seq<(u128, NonFungibleToken)>, p: (u128, NonFungibleToken), now: Moment)
    ensures
        sweep_events(s.push(p), now) == sweep_events(s, now) + (if nft_overdue(p.1, now) {
            seq![Event::ReturnedOverdueNFT { nft_id: p.1.id }]
        } else {
            Seq::<Event>::empty()
        }),
    decreases s.len(),
{
    let t = s.push(p);
    if s.len() == 0 {
        assert(t[0] == p);
        assert(t.drop_first() =~= Seq::<(u128, NonFungibleToken)>::empty());
        assert(sweep_events(t.drop_first(), now) == Seq::<Event>::empty());
        assert(sweep_events(s, now) == Seq::<Event>::empty());
        if nft_overdue(p.1, now) {
            assert(sweep_events(t, now) =~= sweep_events(s, now) + seq![
                Event::ReturnedOverdueNFT { nft_id: p.1.id },
            ]);
        } else {
            assert(sweep_events(t, now) =~= sweep_events(s, now) + Seq::<Event>::empty());
        }
    } else {
        assert(t[0] == s[0]);
        assert(t.drop_first() =~= s.drop_first().push(p));
        lemma_sweep_events_snoc(s.drop_first(), p, now);
        let tail = if nft_overdue(p.1, now) {
            seq![Event::ReturnedOverdueNFT { nft_id: p.1.id }]
        } else {
            Seq::<Event>::empty()
        };
        if nft_overdue(s[0].1, now) {
            assert(sweep_events(t, now) == seq![Event::ReturnedOverdueNFT { nft_id: s[0].1.id }]
                + (sweep_events(s.drop_first(), now) + tail));
            assert(sweep_events(s, now) == seq![Event::ReturnedOverdueNFT { nft_id: s[0].1.id }]
                + sweep_events(s.drop_first(), now));
            assert(seq![Event::ReturnedOverdueNFT { nft_id: s[0].1.id }] + (sweep_events(
                s.drop_first(),
                now,
            ) + tail) =~= (seq![Event::ReturnedOverdueNFT { nft_id: s[0].1.id }] + sweep_events(
                s.drop_first(),
                now,
            )) + tail);
        } else {
            assert(sweep_events(t, now) == sweep_events(s.drop_first(), now) + tail);
            assert(sweep_events(s, now) == sweep_events(s.drop_first(), now));
        }
    }
}

/// Sweeping is idempotent: after one sweep every asset it touched sits
/// with its creator again, so a second sweep at the same moment changes
/// nothing and reports nothing.
pub proof fn lemma_sweep_idempotent(s: Seq<(u128, NonFungibleToken)>, now: Moment)
    ensures
        sweep_tokens(sweep_tokens(s, now), now) == sweep_tokens(s, now),
        sweep_events(sweep_tokens(s, now), now) == Seq::<Event>::empty(),
    decreases s.len(),
{
    let t = sweep_tokens(s, now);
    assert forall|i: int| 0 <= i < t.len() implies #[trigger] sweep_nft(t[i].1, now) == t[i].1 by {
        assert(t[i] == (s[i].0, sweep_nft(s[i].1, now)));
        assert(!nft_overdue(sweep_nft(s[i].1, now), now));
    }
    assert(sweep_tokens(t, now) =~= t);
    if s.len() == 0 {
        assert(t =~= Seq::<(u128, NonFungibleToken)>::empty());
        assert(sweep_events(t, now) == Seq::<Event>::empty());
    } else {
        lemma_sweep_idempotent(s.drop_first(), now);
        assert(t[0] == (s[0].0, sweep_nft(s[0].1, now)));
        assert(t.drop_first() =~= sweep_tokens(s.drop_first(), now));
        assert(!nft_overdue(t[0].1, now));
        assert(sweep_events(t, now) == sweep_events(t.drop_first(), now));
    }
}

/// The marketplace's whole state.  `deposit_per_byte` is the fixed rate
/// at which stored bytes are priced into deposits.
pub struct Marketplace {
    pub collections: Vec<(u128, NFTCollection)>,
    pub tokens: Vec<(u128, NonFungibleToken)>,
    pub deposit_per_byte: Balance,
    pub events: Vec<Event>,
}

impl Marketplace {
    pub open spec fn spec_collection(self, id: u128) -> Option<NFTCollection> {
        assoc_get(self.collections@, id)
    }

    pub open spec fn spec_nft(self, id: u128) -> Option<NonFungibleToken> {
        assoc_get(self.tokens@, id)
    }

    /// An asset record costs its content bytes plus a fixed overhead:
    /// sixteen for the collection reference and thirty-two for the
    /// remaining fixed-width fields.
    pub open spec fn spec_asset_deposit(
        self,
        title: Seq<u8>,
        description: Option<Vec<u8>>,
        media: Seq<u8>,
    ) -> int {
        self.deposit_per_byte * (title.len() + spec_desc_len(description) + media.len() + 48)
    }

    /// A collection record costs its content bytes plus sixteen bytes of
    /// fixed overhead.
    pub open spec fn spec_collection_deposit(
        self,
        title: Seq<u8>,
        description: Option<Vec<u8>>,
    ) -> int {
        self.deposit_per_byte * (title.len() + spec_desc_len(description) + 16)
    }

    /// Some asset still references the collection.
    pub open spec fn collection_in_use(self, collection_id: u128) -> bool {
        exists|i: int|
            0 <= i < self.tokens@.len() && (#[trigger] self.tokens@[i]).1.collection_id
                == collection_id
    }

    pub open spec fn wf(self) -> bool {
        &&& unique_keys(self.collections@)
        &&& unique_keys(self.tokens@)
    }

    pub fn new(deposit_per_byte: Balance) -> (r: Marketplace)
        ensures
            r.wf(),
            r.collections@ == Seq::<(u128, NFTCollection)>::empty(),
            r.tokens@ == Seq::<(u128, NonFungibleToken)>::empty(),
            r.events@ == Seq::<Event>::empty(),
            r.deposit_per_byte == deposit_per_byte,
    {
        Marketplace {
            collections: Vec::new(),
            tokens: Vec::new(),
            deposit_per_byte,
            events: Vec::new(),
        }
    }

    fn find_collection(&self, id: u128) -> (r: Option<usize>)
        ensures
            match r {
                Some(i) => i < self.collections.len() && self.collections@[i as int].0 == id
                    && assoc_get(self.collections@, id) == Some(self.collections@[i as int].1),
                None => assoc_get(self.collections@, id) is None,
            },
    {
        let n = self.collections.len();
        let mut i: usize = 0;
        while i < n
            invariant
                n == self.collections.len(),
                i <= n,
                forall|j: int| 0 <= j < i ==> (#[trigger] self.collections@[j]).0 != id,
            decreases n - i,
        {
            if self.collections[i].0 == id {
                proof {
                    lemma_assoc_get_first(self.collections@, i as int);
                }
                return Some(i);
            }
            i += 1;
        }
        proof {
            lemma_assoc_get_absent(self.collections@, id);
        }
        None
    }

    fn find_nft(&self, id: u128) -> (r: Option<usize>)
        ensures
            match r {
                Some(i) => i < self.tokens.len() && self.tokens@[i as int].0 == id && assoc_get(
                    self.tokens@,
                    id,
                ) == Some(self.tokens@[i as int].1),
                None => assoc_get(self.tokens@, id) is None,
            },
    {
        let n = self.tokens.len();
        let mut i: usize = 0;
        while i < n
            invariant
                n == self.tokens.len(),
                i <= n,
                forall|j: int| 0 <= j < i ==> (#[trigger] self.tokens@[j]).0 != id,
            decreases n - i,
        {
            if self.tokens[i].0 == id {
                proof {
                    lemma_assoc_get_first(self.tokens@, i as int);
                }
                return Some(i);
            }
            i += 1;
        }
        proof {
            lemma_assoc_get_absent(self.tokens@, id);
        }
        None
    }

    pub fn collection_by_id(&self, id: u128) -> (r: Option<&NFTCollection>)
        ensures
            match r {
                Some(c) => self.spec_collection(id) == Some(*c),
                None => self.spec_collection(id) is None,
            },
    {
        match self.find_collection(id) {
            Some(i) => Some(&self.collections[i].1),
            None => None,
        }
    }

    pub fn token_by_id(&self, id: u128) -> (r: Option<&NonFungibleToken>)
        ensures
            match r {
                Some(n) => self.spec_nft(id) == Some(*n),
                None => self.spec_nft(id) is None,
            },
    {
        match self.find_nft(id) {
            Some(i) => Some(&self.tokens[i].1),
            None => None,
        }
    }

    /// Whether any asset still references `collection_id`.
    fn any_nft_in_collection(&self, collection_id: u128) -> (r: bool)
        ensures
            r == self.collection_in_use(collection_id),
    {
        let n = self.tokens.len();
        let mut i: usize = 0;
        while i < n
            invariant
                n == self.tokens.len(),
                i <= n,
                forall|j: int|
                    0 <= j < i ==> (#[trigger] self.tokens@[j]).1.collection_id != collection_id,
            decreases n - i,
        {
            if self.tokens[i].1.collection_id == collection_id {
                return true;
            }
            i += 1;
        }
        false
    }

    fn asset_deposit_of(&self, title: &Vec<u8>, description: &Option<Vec<u8>>, media: &Vec<u8>) -> (r:
        Balance)
        requires
            title@.len() + spec_desc_len(*description) + media@.len() + 48 <= u64::MAX,
            self.spec_asset_deposit(title@, *description, media@) <= u64::MAX,
        ensures
            r == self.spec_asset_deposit(title@, *description, media@),
    {
        let dlen: u64 = match description {
            Some(d) => d.len() as u64,
            None => 0,
        };
        let size: u64 = title.len() as u64 + dlen + media.len() as u64 + 48;
        self.deposit_per_byte * size
    }

    fn collection_deposit_of(&self, title: &Vec<u8>, description: &Option<Vec<u8>>) -> (r: Balance)
        requires
            title@.len() + spec_desc_len(*description) + 16 <= u64::MAX,
            self.spec_collection_deposit(title@, *description) <= u64::MAX,
        ensures
            r == self.spec_collection_deposit(title@, *description),
    {
        let dlen: u64 = match description {
            Some(d) => d.len() as u64,
            None => 0,
        };
        let size: u64 = title.len() as u64 + dlen + 16;
        self.deposit_per_byte * size
    }

    /// Mints a fresh asset under `nft_id`, owned and created by the
    /// caller's brand, reserving a deposit for its content.
    pub fn mint_nft(
        &mut self,
        currency: &mut Currency,
        registry: &BrandRegistry,
        sender: AccountId,
        title: Vec<u8>,
        description: Option<Vec<u8>>,
        media: Vec<u8>,
        collection_id: u128,
        price: Balance,
        expire: u8,
        renew_fee: Balance,
        nft_id: u128,
        now: Moment,
    ) -> (r: Result<(), Error>)
        requires
            old(self).wf(),
            old(currency).wf(),
            title@.len() + spec_desc_len(description) + media@.len() + 48 <= u64::MAX,
            old(self).spec_asset_deposit(title@, description, media@) <= u64::MAX,
        ensures
            final(self).wf(),
            final(currency).wf(),
            r is Err ==> *final(self) == *old(self) && *final(currency) == *old(currency),
            registry.spec_brand(sender) is None ==> r == Err::<(), Error>(Error::BrandNotExist),
            registry.spec_brand(sender) is Some && old(self).spec_nft(nft_id) is Some ==> r
                == Err::<(), Error>(Error::DuplicateNFT),
            registry.spec_brand(sender) is Some && old(self).spec_nft(nft_id) is None && old(
                currency,
            ).spec_free(sender) < old(self).spec_asset_deposit(title@, description, media@) ==> r
                == Err::<(), Error>(Error::InsufficientBalance),
            r is Ok <==> registry.spec_brand(sender) is Some && old(self).spec_nft(nft_id) is None
                && old(self).spec_asset_deposit(title@, description, media@) <= old(
                currency,
            ).spec_free(sender),
            r is Ok ==> (match final(self).spec_nft(nft_id) {
                Some(n) => n.id == nft_id && n.title@ == title@ && desc_view(n.description)
                    == desc_view(description) && n.media@ == media@ && n.creator == sender
                    && n.owner == sender && n.collection_id == collection_id && n.deposit == old(
                    self,
                ).spec_asset_deposit(title@, description, media@) && n.price == price && n.expire
                    == expire && n.created_at == now && n.renew_time == now && n.renew_fee
                    == renew_fee,
                None => false,
            }),
            r is Ok ==> (forall|id: u128|
                id != nft_id ==> #[trigger] final(self).spec_nft(id) == old(self).spec_nft(id)),
            r is Ok ==> final(self).collections@ == old(self).collections@,
            r is Ok ==> final(self).deposit_per_byte == old(self).deposit_per_byte,
            r is Ok ==> final(self).events@ == old(self).events@.push(
                Event::Created { nft: nft_id, owner: sender },
            ),
            r is Ok ==> reserve_effect(
                *old(currency),
                *final(currency),
                sender,
                old(self).spec_asset_deposit(title@, description, media@),
            ),
    {
        if registry.brand_by_id(sender).is_none() {
            return Err(Error::BrandNotExist);
        }
        if self.find_nft(nft_id).is_some() {
            return Err(Error::DuplicateNFT);
        }
        let deposit = self.asset_deposit_of(&title, &description, &media);
        if !currency.reserve(sender, deposit) {
            return Err(Error::InsufficientBalance);
        }
        let nft = NonFungibleToken {
            id: nft_id,
            title,
            description,
            media,
            creator: sender,
            owner: sender,
            collection_id,
            deposit,
            price,
            expire,
            created_at: now,
            renew_time: now,
            renew_fee,
        };
        let ghost before = self.tokens@;
        self.tokens.push((nft_id, nft));
        self.events.push(Event::Created { nft: nft_id, owner: sender });
        proof {
            lemma_assoc_get_push(before, self.tokens@.last());
        }
        Ok(())
    }

    /// Creates a fresh collection under `collection_id`, reserving a
    /// deposit for its content.
    pub fn create_collection(
        &mut self,
        currency: &mut Currency,
        registry: &BrandRegistry,
        sender: AccountId,
        title: Vec<u8>,
        description: Option<Vec<u8>>,
        expire: u8,
        collection_id: u128,
        now: Moment,
    ) -> (r: Result<(), Error>)
        requires
            old(self).wf(),
            old(currency).wf(),
            title@.len() + spec_desc_len(description) + 16 <= u64::MAX,
            old(self).spec_collection_deposit(title@, description) <= u64::MAX,
        ensures
            final(self).wf(),
            final(currency).wf(),
            r is Err ==> *final(self) == *old(self) && *final(currency) == *old(currency),
            registry.spec_brand(sender) is None ==> r == Err::<(), Error>(Error::BrandNotExist),
            registry.spec_brand(sender) is Some && old(self).spec_collection(collection_id)
                is Some ==> r == Err::<(), Error>(Error::DuplicateCollection),
            registry.spec_brand(sender) is Some && old(self).spec_collection(collection_id)
                is None && old(currency).spec_free(sender) < old(self).spec_collection_deposit(
                title@,
                description,
            ) ==> r == Err::<(), Error>(Error::InsufficientBalance),
            r is Ok <==> registry.spec_brand(sender) is Some && old(self).spec_collection(
                collection_id,
            ) is None && old(self).spec_collection_deposit(title@, description) <= old(
                currency,
            ).spec_free(sender),
            r is Ok ==> (match final(self).spec_collection(collection_id) {
                Some(c) => c.title@ == title@ && desc_view(c.description) == desc_view(description)
                    && c.creator == sender && c.deposit == old(self).spec_collection_deposit(
                    title@,
                    description,
                ) && c.expire == expire && c.created_at == now,
                None => false,
            }),
            r is Ok ==> (forall|id: u128|
                id != collection_id ==> #[trigger] final(self).spec_collection(id) == old(
                    self,
                ).spec_collection(id)),
            r is Ok ==> final(self).tokens@ == old(self).tokens@ && final(self).deposit_per_byte
                == old(self).deposit_per_byte,
            r is Ok ==> final(self).events@ == old(self).events@.push(
                Event::CreatedCollection { collection: collection_id, owner: sender },
            ),
            r is Ok ==> reserve_effect(
                *old(currency),
                *final(currency),
                sender,
                old(self).spec_collection_deposit(title@, description),
            ),
    {
        if registry.brand_by_id(sender).is_none() {
            return Err(Error::BrandNotExist);
        }
        if self.find_collection(collection_id).is_some() {
            return Err(Error::DuplicateCollection);
        }
        let deposit = self.collection_deposit_of(&title, &description);
        if !currency.reserve(sender, deposit) {
            return Err(Error::InsufficientBalance);
        }
        let collection = NFTCollection {
            title,
            description,
            creator: sender,
            deposit,
            expire,
            created_at: now,
        };
        let ghost before = self.collections@;
        self.collections.push((collection_id, collection));
        self.events.push(Event::CreatedCollection { collection: collection_id, owner: sender });
        proof {
            lemma_assoc_get_push(before, self.collections@.last());
        }
        Ok(())
    }

    /// Destroys an empty collection of the caller's, releasing its deposit.
    pub fn destroy_collection(
        &mut self,
        currency: &mut Currency,
        registry: &BrandRegistry,
        sender: AccountId,
        collection_id: u128,
    ) -> (r: Result<(), Error>)
        requires
            old(self).wf(),
            old(currency).wf(),
        ensures
            final(self).wf(),
            final(currency).wf(),
            r is Err ==> *final(self) == *old(self) && *final(currency) == *old(currency),
            registry.spec_brand(sender) is None ==> r == Err::<(), Error>(Error::BrandNotExist),
            registry.spec_brand(sender) is Some && old(self).spec_collection(collection_id)
                is None ==> r == Err::<(), Error>(Error::NoCollection),
            registry.spec_brand(sender) is Some && old(self).spec_collection(collection_id)
                is Some && old(self).spec_collection(collection_id)->0.creator != sender ==> r
                == Err::<(), Error>(Error::NotOwner),
            registry.spec_brand(sender) is Some && old(self).spec_collection(collection_id)
                is Some && old(self).spec_collection(collection_id)->0.creator == sender && old(
                self,
            ).collection_in_use(collection_id) ==> r == Err::<(), Error>(Error::TokenInCollection),
            r is Ok <==> registry.spec_brand(sender) is Some && old(self).spec_collection(
                collection_id,
            ) is Some && old(self).spec_collection(collection_id)->0.creator == sender && !old(
                self,
            ).collection_in_use(collection_id),
            r is Ok ==> final(self).spec_collection(collection_id) is None,
            r is Ok ==> (forall|id: u128|
                id != collection_id ==> #[trigger] final(self).spec_collection(id) == old(
                    self,
                ).spec_collection(id)),
            r is Ok ==> final(self).tokens@ == old(self).tokens@ && final(self).deposit_per_byte
                == old(self).deposit_per_byte,
            r is Ok ==> final(self).events@ == old(self).events@.push(
                Event::DestroyCollection { collection: collection_id },
            ),
            r is Ok ==> unreserve_effect(
                *old(currency),
                *final(currency),
                sender,
                old(self).spec_collection(collection_id)->0.deposit as int,
            ),
    {
        if registry.brand_by_id(sender).is_none() {
            return Err(Error::BrandNotExist);
        }
        let i = match self.find_collection(collection_id) {
            Some(i) => i,
            None => {
                return Err(Error::NoCollection);
            },
        };
        if self.collections[i].1.creator != sender {
            return Err(Error::NotOwner);
        }
        if self.any_nft_in_collection(collection_id) {
            return Err(Error::TokenInCollection);
        }
        let deposit = self.collections[i].1.deposit;
        currency.unreserve(sender, deposit);
        proof {
            lemma_assoc_get_remove(self.collections@, i as int);
        }
        let _ = self.collections.remove(i);
        self.events.push(Event::DestroyCollection { collection: collection_id });
        Ok(())
    }

    /// Replaces an asset's content, swapping the old deposit for one
    /// priced from the new content size.
    pub fn edit_nft(
        &mut self,
        currency: &mut Currency,
        registry: &BrandRegistry,
        sender: AccountId,
        nft_id: u128,
        title: Vec<u8>,
        description: Option<Vec<u8>>,
        media: Vec<u8>,
        collection_id: u128,
    ) -> (r: Result<(), Error>)
        requires
            old(self).wf(),
            old(currency).wf(),
            title@.len() + spec_desc_len(description) + media@.len() + 48 <= u64::MAX,
            old(self).spec_asset_deposit(title@, description, media@) <= u64::MAX,
        ensures
            final(self).wf(),
            final(currency).wf(),
            r is Err ==> *final(self) == *old(self) && *final(currency) == *old(currency),
            registry.spec_brand(sender) is None ==> r == Err::<(), Error>(Error::BrandNotExist),
            registry.spec_brand(sender) is Some && old(self).spec_nft(nft_id) is None ==> r
                == Err::<(), Error>(Error::NoNFT),
            registry.spec_brand(sender) is Some && old(self).spec_nft(nft_id) is Some && old(
                self,
            ).spec_nft(nft_id)->0.owner != sender ==> r == Err::<(), Error>(Error::NotOwner),
            registry.spec_brand(sender) is Some && old(self).spec_nft(nft_id) is Some && old(
                self,
            ).spec_nft(nft_id)->0.owner == sender && old(currency).spec_free(sender) + min_int(
                old(self).spec_nft(nft_id)->0.deposit as int,
                old(currency).spec_reserved(sender),
            ) < old(self).spec_asset_deposit(title@, description, media@) ==> r == Err::<
                (),
                Error,
            >(Error::InsufficientBalance),
            r is Ok <==> registry.spec_brand(sender) is Some && old(self).spec_nft(nft_id) is Some
                && old(self).spec_nft(nft_id)->0.owner == sender && old(self).spec_asset_deposit(
                title@,
                description,
                media@,
            ) <= old(currency).spec_free(sender) + min_int(
                old(self).spec_nft(nft_id)->0.deposit as int,
                old(currency).spec_reserved(sender),
            ),
            r is Ok ==> (match final(self).spec_nft(nft_id) {
                Some(n) => n.title@ == title@ && desc_view(n.description) == desc_view(description)
                    && n.media@ == media@ && n.collection_id == collection_id && n.deposit == old(
                    self,
                ).spec_asset_deposit(title@, description, media@) && n.id == old(self).spec_nft(
                    nft_id,
                )->0.id && n.creator == old(self).spec_nft(nft_id)->0.creator && n.owner == sender
                    && n.price == old(self).spec_nft(nft_id)->0.price && n.expire == old(
                    self,
                ).spec_nft(nft_id)->0.expire && n.created_at == old(self).spec_nft(
                    nft_id,
                )->0.created_at && n.renew_time == old(self).spec_nft(nft_id)->0.renew_time
                    && n.renew_fee == old(self).spec_nft(nft_id)->0.renew_fee,
                None => false,
            }),
            r is Ok ==> (forall|id: u128|
                id != nft_id ==> #[trigger] final(self).spec_nft(id) == old(self).spec_nft(id)),
            r is Ok ==> final(self).collections@ == old(self).collections@,
            r is Ok ==> final(self).deposit_per_byte == old(self).deposit_per_byte,
            r is Ok ==> final(self).events@ == old(self).events@.push(
                Event::Edited { nft: nft_id, owner: sender },
            ),
            r is Ok ==> rereserve_effect(
                *old(currency),
                *final(currency),
                sender,
                old(self).spec_nft(nft_id)->0.deposit as int,
                old(self).spec_asset_deposit(title@, description, media@),
            ),
    {
        if registry.brand_by_id(sender).is_none() {
            return Err(Error::BrandNotExist);
        }
        let i = match self.find_nft(nft_id) {
            Some(i) => i,
            None => {
                return Err(Error::NoNFT);
            },
        };
        if self.tokens[i].1.owner != sender {
            return Err(Error::NotOwner);
        }
        let old_dep = self.tokens[i].1.deposit;
        let new_dep = self.asset_deposit_of(&title, &description, &media);
        let free = currency.free_balance(sender);
        let reserved = currency.reserved_balance(sender);
        let returned = if old_dep <= reserved {
            old_dep
        } else {
            reserved
        };
        proof {
            currency.lemma_account_within_total(sender);
        }
        if free + returned < new_dep {
            return Err(Error::InsufficientBalance);
        }
        currency.unreserve(sender, old_dep);
        let ok = currency.reserve(sender, new_dep);
        if !ok {
            proof {
                assert(false);
            }
            return Err(Error::InsufficientBalance);
        }
        let ghost before = self.tokens@;
        self.tokens[i].1.title = title;
        self.tokens[i].1.description = description;
        self.tokens[i].1.media = media;
        self.tokens[i].1.collection_id = collection_id;
        self.tokens[i].1.deposit = new_dep;
        proof {
            assert(self.tokens@ =~= before.update(i as int, self.tokens@[i as int]));
            lemma_assoc_get_update(before, i as int, self.tokens@[i as int]);
        }
        self.events.push(Event::Edited { nft: nft_id, owner: sender });
        Ok(())
    }

    /// Replaces a collection's content, swapping the old deposit for one
    /// priced from the new content size.  A title must be given.
    pub fn edit_collection(
        &mut self,
        currency: &mut Currency,
        registry: &BrandRegistry,
        sender: AccountId,
        collection_id: u128,
        title: Option<Vec<u8>>,
        description: Option<Vec<u8>>,
    ) -> (r: Result<(), Error>)
        requires
            old(self).wf(),
            old(currency).wf(),
            title is Some,
            title->0@.len() + spec_desc_len(description) + 16 <= u64::MAX,
            old(self).spec_collection_deposit(title->0@, description) <= u64::MAX,
        ensures
            final(self).wf(),
            final(currency).wf(),
            r is Err ==> *final(self) == *old(self) && *final(currency) == *old(currency),
            registry.spec_brand(sender) is None ==> r == Err::<(), Error>(Error::BrandNotExist),
            registry.spec_brand(sender) is Some && old(self).spec_collection(collection_id)
                is None ==> r == Err::<(), Error>(Error::NoCollection),
            registry.spec_brand(sender) is Some && old(self).spec_collection(collection_id)
                is Some && old(self).spec_collection(collection_id)->0.creator != sender ==> r
                == Err::<(), Error>(Error::NotOwner),
            registry.spec_brand(sender) is Some && old(self).spec_collection(collection_id)
                is Some && old(self).spec_collection(collection_id)->0.creator == sender && old(
                currency,
            ).spec_free(sender) + min_int(
                old(self).spec_collection(collection_id)->0.deposit as int,
                old(currency).spec_reserved(sender),
            ) < old(self).spec_collection_deposit(title->0@, description) ==> r == Err::<
                (),
                Error,
            >(Error::InsufficientBalance),
            r is Ok <==> registry.spec_brand(sender) is Some && old(self).spec_collection(
                collection_id,
            ) is Some && old(self).spec_collection(collection_id)->0.creator == sender && old(
                self,
            ).spec_collection_deposit(title->0@, description) <= old(currency).spec_free(sender)
                + min_int(
                old(self).spec_collection(collection_id)->0.deposit as int,
                old(currency).spec_reserved(sender),
            ),
            r is Ok ==> (match final(self).spec_collection(collection_id) {
                Some(c) => c.title@ == title->0@ && desc_view(c.description) == desc_view(
                    description,
                ) && c.deposit == old(self).spec_collection_deposit(title->0@, description)
                    && c.creator == sender && c.expire == old(self).spec_collection(
                    collection_id,
                )->0.expire && c.created_at == old(self).spec_collection(
                    collection_id,
                )->0.created_at,
                None => false,
            }),
            r is Ok ==> (forall|id: u128|
                id != collection_id ==> #[trigger] final(self).spec_collection(id) == old(
                    self,
                ).spec_collection(id)),
            r is Ok ==> final(self).tokens@ == old(self).tokens@,
            r is Ok ==> final(self).deposit_per_byte == old(self).deposit_per_byte,
            r is Ok ==> final(self).events@ == old(self).events@.push(
                Event::EditedCollection { collection: collection_id, owner: sender },
            ),
            r is Ok ==> rereserve_effect(
                *old(currency),
                *final(currency),
                sender,
                old(self).spec_collection(collection_id)->0.deposit as int,
                old(self).spec_collection_deposit(title->0@, description),
            ),
    {
        if registry.brand_by_id(sender).is_none() {
            return Err(Error::BrandNotExist);
        }
        let i = match self.find_collection(collection_id) {
            Some(i) => i,
            None => {
                return Err(Error::NoCollection);
            },
        };
        if self.collections[i].1.creator != sender {
            return Err(Error::NotOwner);
        }
        let new_title = match title {
            Some(t) => t,
            None => {
                proof {
                    assert(false);
                }
                Vec::new()
            },
        };
        let old_dep = self.collections[i].1.deposit;
        let new_dep = self.collection_deposit_of(&new_title, &description);
        let free = currency.free_balance(sender);
        let reserved = currency.reserved_balance(sender);
        let returned = if old_dep <= reserved {
            old_dep
        } else {
            reserved
        };
        proof {
            currency.lemma_account_within_total(sender);
        }
        if free + returned < new_dep {
            return Err(Error::InsufficientBalance);
        }
        currency.unreserve(sender, old_dep);
        let ok = currency.reserve(sender, new_dep);
        if !ok {
            proof {
                assert(false);
            }
            return Err(Error::InsufficientBalance);
        }
        let ghost before = self.collections@;
        self.collections[i].1.title = new_title;
        self.collections[i].1.description = description;
        self.collections[i].1.deposit = new_dep;
        proof {
            assert(self.collections@ =~= before.update(i as int, self.collections@[i as int]));
            lemma_assoc_get_update(before, i as int, self.collections@[i as int]);
        }
        self.events.push(Event::EditedCollection { collection: collection_id, owner: sender });
        Ok(())
    }

    /// When a native-currency sale of `nft_id` to `to` goes through.
    pub open spec fn spec_buy_allowed(self, c: Currency, nft_id: u128, to: AccountId) -> bool {
        &&& self.spec_nft(nft_id) is Some
        &&& self.spec_nft(nft_id)->0.price != 0
        &&& self.spec_nft(nft_id)->0.owner != to
        &&& self.spec_nft(nft_id)->0.price <= c.spec_free(to)
    }

    /// What a successful native-currency sale does: the buyer pays the
    /// owner, the owner's deposit is released, and the asset sits with
    /// the buyer, unlisted and without deposit.
    pub open spec fn spec_buy_ok(
        m0: Marketplace,
        m1: Marketplace,
        c0: Currency,
        c1: Currency,
        nft_id: u128,
        to: AccountId,
    ) -> bool {
        let n = m0.spec_nft(nft_id)->0;
        &&& (match m1.spec_nft(nft_id) {
            Some(n1) => n1.id == n.id && n1.title@ == n.title@ && desc_view(n1.description)
                == desc_view(n.description) && n1.media@ == n.media@ && n1.creator == n.creator
                && n1.owner == to && n1.collection_id == n.collection_id && n1.deposit == 0
                && n1.price == 0 && n1.expire == n.expire && n1.created_at == n.created_at
                && n1.renew_time == n.renew_time && n1.renew_fee == n.renew_fee,
            None => false,
        })
        &&& (forall|id: u128| id != nft_id ==> #[trigger] m1.spec_nft(id) == m0.spec_nft(id))
        &&& m1.collections@ == m0.collections@
        &&& m1.deposit_per_byte == m0.deposit_per_byte
        &&& m1.events@ == m0.events@.push(
            Event::Bought { seller: n.owner, buyer: to, nft: nft_id, price: n.price },
        ).push(Event::Transferred { from: n.owner, to, nft: nft_id })
        &&& c1.spec_free(to) == c0.spec_free(to) - n.price
        &&& c1.spec_free(n.owner) == c0.spec_free(n.owner) + n.price + min_int(
            n.deposit as int,
            c0.spec_reserved(n.owner),
        )
        &&& c1.spec_reserved(n.owner) == c0.spec_reserved(n.owner) - min_int(
            n.deposit as int,
            c0.spec_reserved(n.owner),
        )
        &&& c1.spec_reserved(to) == c0.spec_reserved(to)
        &&& (forall|a: AccountId|
            a != to && a != n.owner ==> #[trigger] c1.spec_balances(a) == c0.spec_balances(a))
        &&& c1.spec_total() == c0.spec_total()
        &&& c1.wf()
    }

    /// The native-currency sale: `to` pays the listed price to the current
    /// owner and takes the asset; the owner's deposit is released once.
    pub fn do_transfer(&mut self, currency: &mut Currency, nft_id: u128, to: AccountId) -> (r:
        Result<(), Error>)
        requires
            old(self).wf(),
            old(currency).wf(),
        ensures
            final(self).wf(),
            final(currency).wf(),
            r is Err ==> *final(self) == *old(self) && *final(currency) == *old(currency),
            old(self).spec_nft(nft_id) is None ==> r == Err::<(), Error>(Error::NoNFT),
            old(self).spec_nft(nft_id) is Some && old(self).spec_nft(nft_id)->0.price == 0 ==> r
                == Err::<(), Error>(Error::NotSelling),
            old(self).spec_nft(nft_id) is Some && old(self).spec_nft(nft_id)->0.price != 0 && old(
                self,
            ).spec_nft(nft_id)->0.owner == to ==> r == Err::<(), Error>(Error::TransferToSelf),
            old(self).spec_nft(nft_id) is Some && old(self).spec_nft(nft_id)->0.price != 0 && old(
                self,
            ).spec_nft(nft_id)->0.owner != to && old(currency).spec_free(to) < old(self).spec_nft(
                nft_id,
            )->0.price ==> r == Err::<(), Error>(Error::InsufficientBalance),
            r is Ok <==> old(self).spec_buy_allowed(*old(currency), nft_id, to),
            r is Ok ==> Self::spec_buy_ok(
                *old(self),
                *final(self),
                *old(currency),
                *final(currency),
                nft_id,
                to,
            ),
    {
        let i = match self.find_nft(nft_id) {
            Some(i) => i,
            None => {
                return Err(Error::NoNFT);
            },
        };
        let price = self.tokens[i].1.price;
        if price == 0 {
            return Err(Error::NotSelling);
        }
        let from = self.tokens[i].1.owner;
        if from == to {
            return Err(Error::TransferToSelf);
        }
        if !currency.transfer(to, from, price) {
            return Err(Error::InsufficientBalance);
        }
        self.events.push(Event::Bought { seller: from, buyer: to, nft: nft_id, price });
        let deposit = self.tokens[i].1.deposit;
        currency.unreserve(from, deposit);
        let ghost before = self.tokens@;
        self.tokens[i].1.owner = to;
        self.tokens[i].1.price = 0;
        self.tokens[i].1.deposit = 0;
        proof {
            assert(self.tokens@ =~= before.update(i as int, self.tokens@[i as int]));
            lemma_assoc_get_update(before, i as int, self.tokens@[i as int]);
        }
        self.events.push(Event::Transferred { from, to, nft: nft_id });
        Ok(())
    }

    /// Buys the asset for the caller at its listed price.
    pub fn buy_nft(&mut self, currency: &mut Currency, sender: AccountId, nft_id: u128) -> (r:
        Result<(), Error>)
        requires
            old(self).wf(),
            old(currency).wf(),
        ensures
            final(self).wf(),
            final(currency).wf(),
            r is Err ==> *final(self) == *old(self) && *final(currency) == *old(currency),
            old(self).spec_nft(nft_id) is None ==> r == Err::<(), Error>(Error::NoNFT),
            old(self).spec_nft(nft_id) is Some && old(self).spec_nft(nft_id)->0.price == 0 ==> r
                == Err::<(), Error>(Error::NotSelling),
            old(self).spec_nft(nft_id) is Some && old(self).spec_nft(nft_id)->0.price != 0 && old(
                self,
            ).spec_nft(nft_id)->0.owner == sender ==> r == Err::<(), Error>(
                Error::TransferToSelf,
            ),
            old(self).spec_nft(nft_id) is Some && old(self).spec_nft(nft_id)->0.price != 0 && old(
                self,
            ).spec_nft(nft_id)->0.owner != sender && old(currency).spec_free(sender) < old(
                self,
            ).spec_nft(nft_id)->0.price ==> r == Err::<(), Error>(Error::InsufficientBalance),
            r is Ok <==> old(self).spec_buy_allowed(*old(currency), nft_id, sender),
            r is Ok ==> Self::spec_buy_ok(
                *old(self),
                *final(self),
                *old(currency),
                *final(currency),
                nft_id,
                sender,
            ),
    {
        self.do_transfer(currency, nft_id, sender)
    }

    /// The asset's price must fit the credit ledger's amount width for a
    /// credit redemption.
    pub open spec fn redeem_price_fits(self, nft_id: u128) -> bool {
        match self.spec_nft(nft_id) {
            Some(n) => n.price <= u32::MAX,
            None => true,
        }
    }

    /// The gates a credit redemption must pass before payment: the asset
    /// exists, is listed, is not the caller's, and still sits with its
    /// issuing brand.
    pub open spec fn redeem_gates(self, nft_id: u128, sender: AccountId) -> bool {
        &&& self.spec_nft(nft_id) is Some
        &&& self.spec_nft(nft_id)->0.price != 0
        &&& self.spec_nft(nft_id)->0.owner != sender
        &&& self.spec_nft(nft_id)->0.creator == self.spec_nft(nft_id)->0.owner
    }

    /// The brand-credit sale: the caller pays the listed price in credit
    /// issued by the owning brand, through the token ledger's FIFO spend,
    /// and takes the asset, unlisted and without deposit.
    pub fn redeem_nft(
        &mut self,
        ledger: &mut TokenLedger,
        sender: AccountId,
        nft_id: u128,
        now: Moment,
    ) -> (r: Result<(), Error>)
        requires
            old(self).wf(),
            old(ledger).wf(),
            old(self).redeem_price_fits(nft_id),
        ensures
            final(self).wf(),
            final(ledger).wf(),
            r is Err ==> *final(self) == *old(self) && *final(ledger) == *old(ledger),
            old(self).spec_nft(nft_id) is None ==> r == Err::<(), Error>(Error::NoNFT),
            old(self).spec_nft(nft_id) is Some && old(self).spec_nft(nft_id)->0.price == 0 ==> r
                == Err::<(), Error>(Error::NotSelling),
            old(self).spec_nft(nft_id) is Some && old(self).spec_nft(nft_id)->0.price != 0 && old(
                self,
            ).spec_nft(nft_id)->0.owner == sender ==> r == Err::<(), Error>(
                Error::TransferToSelf,
            ),
            old(self).spec_nft(nft_id) is Some && old(self).spec_nft(nft_id)->0.price != 0 && old(
                self,
            ).spec_nft(nft_id)->0.owner != sender && old(self).spec_nft(nft_id)->0.creator != old(
                self,
            ).spec_nft(nft_id)->0.owner ==> r == Err::<(), Error>(Error::Invalid),
            old(self).redeem_gates(nft_id, sender) && !old(ledger).spec_transfer_allowed(
                sender,
                old(self).spec_nft(nft_id)->0.owner,
                old(self).spec_nft(nft_id)->0.price as u32,
                now,
            ) ==> (r == Err::<(), Error>(Error::InsufficientBalance) || r == Err::<(), Error>(
                Error::NotSupportedYet,
            )),
            old(self).redeem_gates(nft_id, sender) && old(ledger).spec_token(
                old(self).spec_nft(nft_id)->0.owner,
            ) is None && sum_amounts(
                old(ledger).spec_credits(old(self).spec_nft(nft_id)->0.owner, sender),
            ) >= old(self).spec_nft(nft_id)->0.price ==> r == Err::<(), Error>(
                Error::NotSupportedYet,
            ),
            r is Ok <==> old(self).redeem_gates(nft_id, sender) && old(
                ledger,
            ).spec_transfer_allowed(
                sender,
                old(self).spec_nft(nft_id)->0.owner,
                old(self).spec_nft(nft_id)->0.price as u32,
                now,
            ),
            r is Ok ==> TokenLedger::spec_transfer_ok(
                *old(ledger),
                *final(ledger),
                sender,
                old(self).spec_nft(nft_id)->0.owner,
                old(self).spec_nft(nft_id)->0.owner,
                old(self).spec_nft(nft_id)->0.price as u32,
                now,
            ),
            r is Ok ==> (match final(self).spec_nft(nft_id) {
                Some(n1) => {
                    let n = old(self).spec_nft(nft_id)->0;
                    n1.id == n.id && n1.title@ == n.title@ && desc_view(n1.description)
                        == desc_view(n.description) && n1.media@ == n.media@ && n1.creator
                        == n.creator && n1.owner == sender && n1.collection_id == n.collection_id
                        && n1.deposit == 0 && n1.price == 0 && n1.expire == n.expire
                        && n1.created_at == n.created_at && n1.renew_time == n.renew_time
                        && n1.renew_fee == n.renew_fee
                },
                None => false,
            }),
            r is Ok ==> (forall|id: u128|
                id != nft_id ==> #[trigger] final(self).spec_nft(id) == old(self).spec_nft(id)),
            r is Ok ==> final(self).collections@ == old(self).collections@,
            r is Ok ==> final(self).deposit_per_byte == old(self).deposit_per_byte,
            r is Ok ==> final(self).events@ == old(self).events@.push(
                (Event::Bought {
                    seller: old(self).spec_nft(nft_id)->0.owner,
                    buyer: sender,
                    nft: nft_id,
                    price: old(self).spec_nft(nft_id)->0.price,
                }),
            ).push(
                (Event::Transferred {
                    from: old(self).spec_nft(nft_id)->0.owner,
                    to: sender,
                    nft: nft_id,
                }),
            ),
    {
        let i = match self.find_nft(nft_id) {
            Some(i) => i,
            None => {
                return Err(Error::NoNFT);
            },
        };
        let price = self.tokens[i].1.price;
        if price == 0 {
            return Err(Error::NotSelling);
        }
        let from_owner = self.tokens[i].1.owner;
        if from_owner == sender {
            return Err(Error::TransferToSelf);
        }
        if self.tokens[i].1.creator != from_owner {
            return Err(Error::Invalid);
        }
        let price_u32 = balance_to_u32(price);
        match ledger.do_transfer(sender, from_owner, from_owner, price_u32, now) {
            Ok(()) => {},
            Err(crate::token::Error::NotSupportedYet) => {
                return Err(Error::NotSupportedYet);
            },
            Err(_) => {
                return Err(Error::InsufficientBalance);
            },
        }
        self.events.push(Event::Bought { seller: from_owner, buyer: sender, nft: nft_id, price });
        let ghost before = self.tokens@;
        self.tokens[i].1.owner = sender;
        self.tokens[i].1.price = 0;
        self.tokens[i].1.deposit = 0;
        proof {
            assert(self.tokens@ =~= before.update(i as int, self.tokens@[i as int]));
            lemma_assoc_get_update(before, i as int, self.tokens@[i as int]);
        }
        self.events.push(Event::Transferred { from: from_owner, to: sender, nft: nft_id });
        Ok(())
    }

    /// Changes the price of an already-listed asset of the caller's.  An
    /// unlisted asset (price zero) cannot be listed through this call.
    pub fn set_nft_price(&mut self, sender: AccountId, nft_id: u128, new_price: Balance) -> (r:
        Result<(), Error>)
        requires
            old(self).wf(),
        ensures
            final(self).wf(),
            r is Err ==> *final(self) == *old(self),
            old(self).spec_nft(nft_id) is None ==> r == Err::<(), Error>(Error::NoNFT),
            old(self).spec_nft(nft_id) is Some && old(self).spec_nft(nft_id)->0.owner != sender
                ==> r == Err::<(), Error>(Error::NotOwner),
            old(self).spec_nft(nft_id) is Some && old(self).spec_nft(nft_id)->0.owner == sender
                && old(self).spec_nft(nft_id)->0.price == 0 ==> r == Err::<(), Error>(
                Error::NotSelling,
            ),
            r is Ok <==> old(self).spec_nft(nft_id) is Some && old(self).spec_nft(nft_id)->0.owner
                == sender && old(self).spec_nft(nft_id)->0.price != 0,
            r is Ok ==> (match final(self).spec_nft(nft_id) {
                Some(n1) => {
                    let n = old(self).spec_nft(nft_id)->0;
                    n1.id == n.id && n1.title@ == n.title@ && desc_view(n1.description)
                        == desc_view(n.description) && n1.media@ == n.media@ && n1.creator
                        == n.creator && n1.owner == n.owner && n1.collection_id == n.collection_id
                        && n1.deposit == n.deposit && n1.price == new_price && n1.expire
                        == n.expire && n1.created_at == n.created_at && n1.renew_time
                        == n.renew_time && n1.renew_fee == n.renew_fee
                },
                None => false,
            }),
            r is Ok ==> (forall|id: u128|
                id != nft_id ==> #[trigger] final(self).spec_nft(id) == old(self).spec_nft(id)),
            r is Ok ==> final(self).collections@ == old(self).collections@,
            r is Ok ==> final(self).deposit_per_byte == old(self).deposit_per_byte,
            r is Ok ==> final(self).events@ == old(self).events@.push(
                Event::PriceSet { nft: nft_id, price: Some(new_price) },
            ),
    {
        let i = match self.find_nft(nft_id) {
            Some(i) => i,
            None => {
                return Err(Error::NoNFT);
            },
        };
        if self.tokens[i].1.owner != sender {
            return Err(Error::NotOwner);
        }
        if self.tokens[i].1.price == 0 {
            return Err(Error::NotSelling);
        }
        let ghost before = self.tokens@;
        self.tokens[i].1.price = new_price;
        proof {
            assert(self.tokens@ =~= before.update(i as int, self.tokens@[i as int]));
            lemma_assoc_get_update(before, i as int, self.tokens@[i as int]);
        }
        self.events.push(Event::PriceSet { nft: nft_id, price: Some(new_price) });
        Ok(())
    }

    /// Burns an asset of the caller's, releasing its deposit.
    pub fn burn_nft(
        &mut self,
        currency: &mut Currency,
        registry: &BrandRegistry,
        sender: AccountId,
        nft_id: u128,
    ) -> (r: Result<(), Error>)
        requires
            old(self).wf(),
            old(currency).wf(),
        ensures
            final(self).wf(),
            final(currency).wf(),
            r is Err ==> *final(self) == *old(self) && *final(currency) == *old(currency),
            registry.spec_brand(sender) is None ==> r == Err::<(), Error>(Error::BrandNotExist),
            registry.spec_brand(sender) is Some && old(self).spec_nft(nft_id) is None ==> r
                == Err::<(), Error>(Error::NoNFT),
            registry.spec_brand(sender) is Some && old(self).spec_nft(nft_id) is Some && old(
                self,
            ).spec_nft(nft_id)->0.owner != sender ==> r == Err::<(), Error>(Error::NotOwner),
            r is Ok <==> registry.spec_brand(sender) is Some && old(self).spec_nft(nft_id) is Some
                && old(self).spec_nft(nft_id)->0.owner == sender,
            r is Ok ==> final(self).spec_nft(nft_id) is None,
            r is Ok ==> (forall|id: u128|
                id != nft_id ==> #[trigger] final(self).spec_nft(id) == old(self).spec_nft(id)),
            r is Ok ==> final(self).collections@ == old(self).collections@,
            r is Ok ==> final(self).deposit_per_byte == old(self).deposit_per_byte,
            r is Ok ==> final(self).events@ == old(self).events@.push(
                Event::BurntNFT { nft: nft_id },
            ),
            r is Ok ==> unreserve_effect(
                *old(currency),
                *final(currency),
                sender,
                old(self).spec_nft(nft_id)->0.deposit as int,
            ),
    {
        if registry.brand_by_id(sender).is_none() {
            return Err(Error::BrandNotExist);
        }
        let i = match self.find_nft(nft_id) {
            Some(i) => i,
            None => {
                return Err(Error::NoNFT);
            },
        };
        if self.tokens[i].1.owner != sender {
            return Err(Error::NotOwner);
        }
        let deposit = self.tokens[i].1.deposit;
        currency.unreserve(sender, deposit);
        proof {
            lemma_assoc_get_remove(self.tokens@, i as int);
        }
        let _ = self.tokens.remove(i);
        self.events.push(Event::BurntNFT { nft: nft_id });
        Ok(())
    }

    /// Renews an asset of the caller's: the exact renewal fee goes to the
    /// asset's original creator, and the lifetime and renewal time are
    /// replaced.
    pub fn renew_nft(
        &mut self,
        currency: &mut Currency,
        sender: AccountId,
        expire: u8,
        paid: Balance,
        nft_id: u128,
        now: Moment,
    ) -> (r: Result<(), Error>)
        requires
            old(self).wf(),
            old(currency).wf(),
        ensures
            final(self).wf(),
            final(currency).wf(),
            r is Err ==> *final(self) == *old(self) && *final(currency) == *old(currency),
            old(self).spec_nft(nft_id) is None ==> r == Err::<(), Error>(Error::NoNFT),
            old(self).spec_nft(nft_id) is Some && old(self).spec_nft(nft_id)->0.renew_fee != paid
                ==> r == Err::<(), Error>(Error::NotPayExactAmount),
            old(self).spec_nft(nft_id) is Some && old(self).spec_nft(nft_id)->0.renew_fee == paid
                && old(self).spec_nft(nft_id)->0.owner != sender ==> r == Err::<(), Error>(
                Error::NotOwner,
            ),
            old(self).spec_nft(nft_id) is Some && old(self).spec_nft(nft_id)->0.renew_fee == paid
                && old(self).spec_nft(nft_id)->0.owner == sender && old(currency).spec_free(sender)
                < paid ==> r == Err::<(), Error>(Error::InsufficientBalance),
            r is Ok <==> old(self).spec_nft(nft_id) is Some && old(self).spec_nft(
                nft_id,
            )->0.renew_fee == paid && old(self).spec_nft(nft_id)->0.owner == sender && paid <= old(
                currency,
            ).spec_free(sender),
            r is Ok ==> (match final(self).spec_nft(nft_id) {
                Some(n1) => {
                    let n = old(self).spec_nft(nft_id)->0;
                    n1.id == n.id && n1.title@ == n.title@ && desc_view(n1.description)
                        == desc_view(n.description) && n1.media@ == n.media@ && n1.creator
                        == n.creator && n1.owner == n.owner && n1.collection_id == n.collection_id
                        && n1.deposit == n.deposit && n1.price == n.price && n1.expire == expire
                        && n1.created_at == n.created_at && n1.renew_time == now && n1.renew_fee
                        == n.renew_fee
                },
                None => false,
            }),
            r is Ok ==> (forall|id: u128|
                id != nft_id ==> #[trigger] final(self).spec_nft(id) == old(self).spec_nft(id)),
            r is Ok ==> final(self).collections@ == old(self).collections@,
            r is Ok ==> final(self).deposit_per_byte == old(self).deposit_per_byte,
            r is Ok ==> final(self).events@ == old(self).events@.push(
                Event::RenewNFT { nft: nft_id, price: paid },
            ),
            r is Ok ==> crate::currency::transfer_effect(
                *old(currency),
                *final(currency),
                sender,
                old(self).spec_nft(nft_id)->0.creator,
                paid as int,
            ),
    {
        let i = match self.find_nft(nft_id) {
            Some(i) => i,
            None => {
                return Err(Error::NoNFT);
            },
        };
        if self.tokens[i].1.renew_fee != paid {
            return Err(Error::NotPayExactAmount);
        }
        if self.tokens[i].1.owner != sender {
            return Err(Error::NotOwner);
        }
        let creator = self.tokens[i].1.creator;
        if !currency.transfer(sender, creator, paid) {
            return Err(Error::InsufficientBalance);
        }
        let ghost before = self.tokens@;
        self.tokens[i].1.expire = expire;
        self.tokens[i].1.renew_time = now;
        proof {
            assert(self.tokens@ =~= before.update(i as int, self.tokens@[i as int]));
            lemma_assoc_get_update(before, i as int, self.tokens@[i as int]);
        }
        self.events.push(Event::RenewNFT { nft: nft_id, price: paid });
        Ok(())
    }

    /// The periodic expiry sweep: every asset that has left its issuing
    /// brand and outlived its lifetime plus the grace period returns to
    /// its creator, with one event per returned asset.  Safe to run any
    /// number of times.
    pub fn check_expire_nft(&mut self, now: Moment) -> (r: Result<(), Error>)
        requires
            old(self).wf(),
        ensures
            final(self).wf(),
            r is Ok,
            final(self).tokens@ == sweep_tokens(old(self).tokens@, now),
            final(self).events@ == old(self).events@ + sweep_events(old(self).tokens@, now),
            final(self).collections@ == old(self).collections@,
            final(self).deposit_per_byte == old(self).deposit_per_byte,
    {
        let ghost toks0 = self.tokens@;
        let n = self.tokens.len();
        let mut i: usize = 0;
        proof {
            assert(toks0.take(0) =~= Seq::<(u128, NonFungibleToken)>::empty());
            assert(self.events@ =~= self.events@ + sweep_events(toks0.take(0), now));
        }
        while i < n
            invariant
                self.wf(),
                n == self.tokens.len(),
                n == toks0.len(),
                i <= n,
                self.collections@ == old(self).collections@,
                self.deposit_per_byte == old(self).deposit_per_byte,
                forall|j: int| i <= j < n ==> self.tokens@[j] == toks0[j],
                forall|j: int|
                    0 <= j < i ==> self.tokens@[j] == (toks0[j].0, sweep_nft(toks0[j].1, now)),
                self.events@ == old(self).events@ + sweep_events(toks0.take(i as int), now),
            decreases n - i,
        {
            let created_at = self.tokens[i].1.created_at;
            let expire = self.tokens[i].1.expire;
            let owner = self.tokens[i].1.owner;
            let creator = self.tokens[i].1.creator;
            let id = self.tokens[i].1.id;
            let diff = if now >= created_at {
                now - created_at
            } else {
                0
            };
            let overdue = diff > SECONDS_PER_MONTH * (expire as u64) + GRACE_SECONDS && owner
                != creator;
            let ghost before = self.tokens@;
            proof {
                assert(toks0.take(i + 1) =~= toks0.take(i as int).push(toks0[i as int]));
                lemma_sweep_events_snoc(toks0.take(i as int), toks0[i as int], now);
                assert(overdue == nft_overdue(toks0[i as int].1, now));
            }
            if overdue {
                self.tokens[i].1.owner = creator;
                self.events.push(Event::ReturnedOverdueNFT { nft_id: id });
                proof {
                    assert forall|x: int, y: int|
                        0 <= x < y < self.tokens@.len() implies (#[trigger] self.tokens@[x]).0 != (
                        #[trigger] self.tokens@[y]).0 by {
                        assert(self.tokens@[x].0 == before[x].0);
                        assert(self.tokens@[y].0 == before[y].0);
                    }
                    assert(self.events@ =~= old(self).events@ + sweep_events(
                        toks0.take(i + 1),
                        now,
                    ));
                }
            } else {
                proof {
                    assert(self.events@ =~= old(self).events@ + sweep_events(
                        toks0.take(i + 1),
                        now,
                    ));
                }
            }
            i += 1;
        }
        proof {
            assert(toks0.take(n as int) =~= toks0);
            assert(self.tokens@ =~= sweep_tokens(toks0, now));
        }
        Ok(())
    }

    /// Every asset record, copied out in store order.
    pub fn get_nfts(&self) -> (r: Vec<NonFungibleToken>)
        ensures
            r@.len() == self.tokens@.len(),
            forall|i: int| 0 <= i < r@.len() ==> nft_like(self.tokens@[i].1, #[trigger] r@[i]),
    {
        let n = self.tokens.len();
        let mut out: Vec<NonFungibleToken> = Vec::new();
        let mut i: usize = 0;
        while i < n
            invariant
                n == self.tokens.len(),
                i <= n,
                out@.len() == i,
                forall|j: int| 0 <= j < i ==> nft_like(self.tokens@[j].1, #[trigger] out@[j]),
            decreases n - i,
        {
            out.push(self.tokens[i].1.clone());
            i += 1;
        }
        out
    }
}

/// Two asset records that hold the same data.
pub open spec fn nft_like(a: NonFungibleToken, b: NonFungibleToken) -> bool {
    &&& a.id == b.id
    &&& a.title@ == b.title@
    &&& desc_view(a.description) == desc_view(b.description)
    &&& a.media@ == b.media@
    &&& a.creator == b.creator
    &&& a.owner == b.owner
    &&& a.collection_id == b.collection_id
    &&& a.deposit == b.deposit
    &&& a.price == b.price
    &&& a.expire == b.expire
    &&& a.created_at == b.created_at
    &&& a.renew_time == b.renew_time
    &&& a.renew_fee == b.renew_fee
}

/// A fresh copy of an optional byte string.
fn clone_desc(d: &Option<Vec<u8>>) -> (r: Option<Vec<u8>>)
    ensures
        desc_view(r) == desc_view(*d),
{
    match d {
        Some(v) => Some(crate::bytes_clone(v)),
        None => None,
    }
}

impl Clone for NonFungibleToken {
    fn clone(&self) -> (r: Self)
        ensures
            nft_like(*self, r),
    {
        NonFungibleToken {
            id: self.id,
            title: crate::bytes_clone(&self.title),
            description: clone_desc(&self.description),
            media: crate::bytes_clone(&self.media),
            creator: self.creator,
            owner: self.owner,
            collection_id: self.collection_id,
            deposit: self.deposit,
            price: self.price,
            expire: self.expire,
            created_at: self.created_at,
            renew_time: self.renew_time,
            renew_fee: self.renew_fee,
        }
    }
}

/// The native-currency value of a byte-sized amount.
pub fn u8_to_balance(input: u8) -> (r: Balance)
    ensures
        r == input as Balance,
{
    input as Balance
}

/// The native-currency value of a token amount.
pub fn u32_to_balance(input: u32) -> (r: Balance)
    ensures
        r == input as Balance,
{
    input as Balance
}

/// A balance narrowed to a byte; the value must fit.
pub fn balance_to_u8(input: Balance) -> (r: u8)
    requires
        input <= u8::MAX,
    ensures
        r == input as u8,
{
    input as u8
}

/// A balance narrowed to a token amount; the value must fit.
pub fn balance_to_u32(input: Balance) -> (r: u32)
    requires
        input <= u32::MAX,
    ensures
        r == input as u32,
{
    input as u32
}

} // verus!
