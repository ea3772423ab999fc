//! A coffee marketplace kept by one owner: a stock of items with their
//! price options, delivery rates per region, the basket of the purchase under
//! way and the book of pending and fulfilled orders.
//!
//! The library holds the state and every decision that the store makes; the
//! host that persists the state, talks to the price oracle, moves funds and
//! computes prices in floating point sits outside it. Prices are kept as the
//! bit patterns of the host's `f64` values: the library stores, copies and
//! hands them back, and never computes with them.

pub mod text;
pub mod decimal;
pub mod store_map;
pub mod models;
pub mod store_op;
pub mod purchase;
pub mod account;
pub mod history;

use vstd::prelude::*;
use crate::store_map::{Record, StoreMap, pairs_view, distinct_keys, entries_insert_all, lemma_insert_all_elements};
use vstd::string::*;
use crate::text::{char_count, strings_of};

verus! {

/// One NEAR in yoctoNEAR.
pub const ONE_NEAR: u128 = 1_000_000_000_000_000_000_000_000;

/// The smallest deposit that a purchase must carry.
pub const MINIMUM_ORDER: u128 = 1_000_000_000_000_000_000_000_000;

/// Gas given to a cross-contract call.
pub const XCC_GAS: u64 = 20_000_000_000_000;

/// The asset whose price the oracle is asked for.
pub const ASSET_ID_REF: &'static str = "wrap.near";

/// The account of the price oracle.
pub const PRICE_ORACLE: &'static str = "priceoracle.near";

/// The rate band that delivery is charged at.
pub const DELIVERY_BAND: &'static str = "0";

/// The event name of a confirmed purchase.
pub const PURCHASE_EVENT: &'static str = "confirmed_purchase";

/// The bit pattern of a price held by the host as an `f64`.
pub type PriceBits = u64;

/// Copies a list of strings.
pub fn copy_strings(v: &Vec<String>) -> (r: Vec<String>)
    ensures
        strings_of(r@) == strings_of(v@),
{
    let n = v.len();
    let mut r: Vec<String> = Vec::new();
    let mut i: usize = 0;
    while i < n
        invariant
            n == v@.len(),
            i <= n,
            r@.len() == i,
            strings_of(r@) =~= strings_of(v@).subrange(0, i as int),
        decreases n - i,
    {
        r.push(v[i].clone());
        i = i + 1;
        assert(strings_of(r@) =~= strings_of(v@).subrange(0, i as int));
    }
    assert(strings_of(v@).subrange(0, n as int) =~= strings_of(v@));
    r
}

/// Copies a list of (key, count) pairs.
pub fn copy_counts(v: &Vec<(String, u16)>) -> (r: Vec<(String, u16)>)
    ensures
        pairs_view(r@) == pairs_view(v@),
{
    let n = v.len();
    let mut r: Vec<(String, u16)> = Vec::new();
    let mut i: usize = 0;
    while i < n
        invariant
            n == v@.len(),
            i <= n,
            r@.len() == i,
            pairs_view(r@) =~= pairs_view(v@).subrange(0, i as int),
        decreases n - i,
    {
        let e = &v[i];
        r.push((e.0.clone(), e.1));
        i = i + 1;
        assert(pairs_view(r@) =~= pairs_view(v@).subrange(0, i as int));
    }
    assert(pairs_view(v@).subrange(0, n as int) =~= pairs_view(v@));
    r
}

/// An item of the stock: the grinds it comes in and its price per weight option.
pub struct MarketplaceItem {
    pub name: String,
    pub grinds: Vec<String>,
    pub price_range: StoreMap<PriceBits>,
    pub availability: bool,
}

pub struct ItemView {
    pub name: Seq<char>,
    pub grinds: Seq<Seq<char>>,
    pub price_range: Seq<(Seq<char>, PriceBits)>,
    pub availability: bool,
}

impl View for MarketplaceItem {
    type V = ItemView;

    open spec fn view(&self) -> ItemView {
        ItemView {
            name: self.name@,
            grinds: strings_of(self.grinds@),
            price_range: self.price_range@,
            availability: self.availability,
        }
    }
}

impl Record for MarketplaceItem {
    fn duplicate(&self) -> (r: Self) {
        MarketplaceItem {
            name: self.name.clone(),
            grinds: copy_strings(&self.grinds),
            price_range: self.price_range.duplicate(),
            availability: self.availability,
        }
    }
}

/// Delivery rates of a region, per parcel weight and rate band.
pub struct DeliveryRegion {
    pub grams_250: StoreMap<PriceBits>,
    pub grams_500: StoreMap<PriceBits>,
    pub grams_1000: StoreMap<PriceBits>,
    pub grams_2000: StoreMap<PriceBits>,
}

pub struct RegionView {
    pub grams_250: Seq<(Seq<char>, PriceBits)>,
    pub grams_500: Seq<(Seq<char>, PriceBits)>,
    pub grams_1000: Seq<(Seq<char>, PriceBits)>,
    pub grams_2000: Seq<(Seq<char>, PriceBits)>,
}

impl View for DeliveryRegion {
    type V = RegionView;

    open spec fn view(&self) -> RegionView {
        RegionView {
            grams_250: self.grams_250@,
            grams_500: self.grams_500@,
            grams_1000: self.grams_1000@,
            grams_2000: self.grams_2000@,
        }
    }
}

impl Record for DeliveryRegion {
    fn duplicate(&self) -> (r: Self) {
        DeliveryRegion {
            grams_250: self.grams_250.duplicate(),
            grams_500: self.grams_500.duplicate(),
            grams_1000: self.grams_1000.duplicate(),
            grams_2000: self.grams_2000.duplicate(),
        }
    }
}

/// A recorded order.
pub struct PurchaseEvent {
    pub order_id: String,
    pub account_id: String,
    pub event: String,
    pub message: String,
    pub items: Vec<(String, u16)>,
    pub checkout_cost: PriceBits,
}

pub struct EventView {
    pub order_id: Seq<char>,
    pub account_id: Seq<char>,
    pub event: Seq<char>,
    pub message: Seq<char>,
    pub items: Seq<(Seq<char>, u16)>,
    pub checkout_cost: PriceBits,
}

impl View for PurchaseEvent {
    type V = EventView;

    open spec fn view(&self) -> EventView {
        EventView {
            order_id: self.order_id@,
            account_id: self.account_id@,
            event: self.event@,
            message: self.message@,
            items: pairs_view(self.items@),
            checkout_cost: self.checkout_cost,
        }
    }
}

impl Record for PurchaseEvent {
    fn duplicate(&self) -> (r: Self) {
        PurchaseEvent {
            order_id: self.order_id.clone(),
            account_id: self.account_id.clone(),
            event: self.event.clone(),
            message: self.message.clone(),
            items: copy_counts(&self.items),
            checkout_cost: self.checkout_cost,
        }
    }
}

/// The purchase under way: who asked, their message and the items.
pub struct Basket {
    pub account_id: String,
    pub message: String,
    pub region_code: String,
    pub basket_items: Vec<(String, u16)>,
}

pub struct BasketView {
    pub account_id: Seq<char>,
    pub message: Seq<char>,
    pub region_code: Seq<char>,
    pub basket_items: Seq<(Seq<char>, u16)>,
}

impl View for Basket {
    type V = BasketView;

    open spec fn view(&self) -> BasketView {
        BasketView {
            account_id: self.account_id@,
            message: self.message@,
            region_code: self.region_code@,
            basket_items: pairs_view(self.basket_items@),
        }
    }
}

impl Record for Basket {
    fn duplicate(&self) -> (r: Self) {
        Basket {
            account_id: self.account_id.clone(),
            message: self.message.clone(),
            region_code: self.region_code.clone(),
            basket_items: copy_counts(&self.basket_items),
        }
    }
}

/// The three parts of a basket key `id_grams_grind`.
pub struct BasketItem {
    pub id: String,
    pub grind: String,
    pub grams: String,
}

/// Why the store refuses a request.
#[derive(Debug, Clone, Copy, PartialEq, Eq, Structural)]
pub enum StoreError {
    /// The caller is not the owner.
    NotOwner,
    /// An item with this id is already in stock.
    ItemAlreadyExists,
    /// A region code is not two characters long.
    InvalidRegionCode,
    /// The deposit is below the minimum order.
    BelowMinimumOrder,
    /// The basket holds no item.
    EmptyBasket,
    /// The region that the message names has no delivery rates.
    UnsupportedRegion,
    /// The price oracle's account id is not a valid account id.
    InvalidOracleAccount,
}

/// The store and its book of orders.
pub struct Contract {
    owner_id: String,
    marketplace_stock: StoreMap<MarketplaceItem>,
    delivery_regions: StoreMap<DeliveryRegion>,
    user_basket: Option<Basket>,
    last_near_price: Option<u128>,
    pending_orders: StoreMap<PurchaseEvent>,
    fulfilled_orders: StoreMap<PurchaseEvent>,
}

pub struct ContractView {
    pub owner: Seq<char>,
    pub stock: Seq<(Seq<char>, ItemView)>,
    pub regions: Seq<(Seq<char>, RegionView)>,
    pub basket: Option<BasketView>,
    pub near_price: Option<u128>,
    pub pending: Seq<(Seq<char>, EventView)>,
    pub fulfilled: Seq<(Seq<char>, EventView)>,
}

pub open spec fn basket_view(b: Option<Basket>) -> Option<BasketView> {
    match b {
        Some(b) => Some(b@),
        None => None,
    }
}

impl View for Contract {
    type V = ContractView;

    closed spec fn view(&self) -> ContractView {
        ContractView {
            owner: self.owner_id@,
            stock: self.marketplace_stock@,
            regions: self.delivery_regions@,
            basket: basket_view(self.user_basket),
            near_price: self.last_near_price,
            pending: self.pending_orders@,
            fulfilled: self.fulfilled_orders@,
        }
    }
}

/// Every item of the stock is available.
pub open spec fn items_available(s: Seq<(Seq<char>, ItemView)>) -> bool {
    forall|i: int| 0 <= i < s.len() ==> (#[trigger] s[i]).1.availability
}

/// Every region code is two characters long.
pub open spec fn codes_two_chars(s: Seq<(Seq<char>, RegionView)>) -> bool {
    forall|i: int| 0 <= i < s.len() ==> (#[trigger] s[i]).0.len() == 2
}

/// Every order is kept under its own id and records a confirmed purchase.
pub open spec fn orders_keyed(s: Seq<(Seq<char>, EventView)>) -> bool {
    forall|i: int| 0 <= i < s.len() ==> (#[trigger] s[i]).1.order_id == s[i].0 && s[i].1.event == PURCHASE_EVENT@
}

/// The store's invariant: no table holds a key twice, every region code is
/// two characters long, every stocked item is available, and every order is
/// kept under its own id and records a confirmed purchase.
pub open spec fn valid(v: ContractView) -> bool {
    &&& distinct_keys(v.stock)
    &&& distinct_keys(v.regions)
    &&& distinct_keys(v.pending)
    &&& distinct_keys(v.fulfilled)
    &&& codes_two_chars(v.regions)
    &&& items_available(v.stock)
    &&& orders_keyed(v.pending)
    &&& orders_keyed(v.fulfilled)
}

/// Taking a valid store apart into its views and rebuilding it from them
/// gives the same store back.
pub proof fn law_parts_round_trip(v: ContractView)
    requires
        valid(v),
    ensures
        entries_insert_all(Seq::empty(), v.stock) == v.stock,
        entries_insert_all(Seq::empty(), v.regions) == v.regions,
        entries_insert_all(Seq::empty(), v.pending) == v.pending,
        entries_insert_all(Seq::empty(), v.fulfilled) == v.fulfilled,
{
    crate::store_map::law_insert_all_round_trip(v.stock);
    crate::store_map::law_insert_all_round_trip(v.regions);
    crate::store_map::law_insert_all_round_trip(v.pending);
    crate::store_map::law_insert_all_round_trip(v.fulfilled);
}

/// The region that a purchase message names: its second and last characters.
pub open spec fn region_of(message: Seq<char>) -> Seq<char> {
    if message.len() >= 2 {
        seq![message[1], message[message.len() - 1]]
    } else {
        Seq::empty()
    }
}

/// Whether every region code of `v` is two characters long.
fn all_two_chars(v: &Vec<(String, DeliveryRegion)>) -> (r: bool)
    ensures
        r == codes_two_chars(pairs_view(v@)),
{
    let n = v.len();
    let mut i: usize = 0;
    while i < n
        invariant
            n == v@.len(),
            i <= n,
            forall|j: int| 0 <= j < i ==> (#[trigger] pairs_view(v@)[j]).0.len() == 2,
        decreases n - i,
    {
        if char_count(v[i].0.as_str()) != 2 {
            assert(pairs_view(v@)[i as int].0 == v@[i as int].0@);
            return false;
        }
        i = i + 1;
    }
    true
}

/// Whether every item of `v` is available.
fn all_available(v: &Vec<(String, MarketplaceItem)>) -> (r: bool)
    ensures
        r == items_available(pairs_view(v@)),
{
    let n = v.len();
    let mut i: usize = 0;
    while i < n
        invariant
            n == v@.len(),
            i <= n,
            forall|j: int| 0 <= j < i ==> (#[trigger] pairs_view(v@)[j]).1.availability,
        decreases n - i,
    {
        if !v[i].1.availability {
            assert(pairs_view(v@)[i as int].1 == v@[i as int].1@);
            return false;
        }
        i = i + 1;
    }
    true
}

/// Whether every order of `v` is listed under its own id as a confirmed purchase.
fn all_keyed(v: &Vec<(String, PurchaseEvent)>) -> (r: bool)
    ensures
        r == orders_keyed(pairs_view(v@)),
{
    let event = String::from_str(PURCHASE_EVENT);
    let n = v.len();
    let mut i: usize = 0;
    while i < n
        invariant
            n == v@.len(),
            event@ == PURCHASE_EVENT@,
            i <= n,
            forall|j: int| 0 <= j < i ==> (#[trigger] pairs_view(v@)[j]).1.order_id == pairs_view(v@)[j].0
                && pairs_view(v@)[j].1.event == PURCHASE_EVENT@,
        decreases n - i,
    {
        let e = &v[i];
        assert(pairs_view(v@)[i as int] == (e.0@, e.1@));
        if !(e.1.order_id == e.0) || !(e.1.event == event) {
            return false;
        }
        i = i + 1;
    }
    true
}

impl Contract {
    /// A store owned by `owner_id`, with nothing in it and the NEAR price
    /// taken as one.
    pub fn new(owner_id: String) -> (r: Contract)
        ensures
            r@.owner == owner_id@,
            r@.stock.len() == 0,
            r@.regions.len() == 0,
            r@.basket is None,
            r@.near_price == Some(ONE_NEAR),
            r@.pending.len() == 0,
            r@.fulfilled.len() == 0,
            valid(r@),
    {
        Contract {
            owner_id,
            marketplace_stock: StoreMap::new(),
            delivery_regions: StoreMap::new(),
            user_basket: None,
            last_near_price: Some(ONE_NEAR),
            pending_orders: StoreMap::new(),
            fulfilled_orders: StoreMap::new(),
        }
    }

    /// The store is always valid.
    #[verifier::type_invariant]
    pub open spec fn is_valid(&self) -> bool {
        valid(self@)
    }

    /// Rebuilds a store from its owner, its tables as the views list them,
    /// the purchase under way and the last NEAR price, a later entry of a
    /// key replacing an earlier one; nothing unless every region code is two
    /// characters long, every item is available and every order is listed
    /// under its own id as a confirmed purchase.
    pub fn from_parts(
        owner_id: String,
        stock: Vec<(String, MarketplaceItem)>,
        regions: Vec<(String, DeliveryRegion)>,
        basket: Option<Basket>,
        near_price: Option<u128>,
        pending: Vec<(String, PurchaseEvent)>,
        fulfilled: Vec<(String, PurchaseEvent)>,
    ) -> (r: Option<Contract>)
        ensures
            r is Some <==> codes_two_chars(pairs_view(regions@)) && items_available(pairs_view(stock@))
                && orders_keyed(pairs_view(pending@)) && orders_keyed(pairs_view(fulfilled@)),
            r matches Some(c) ==> valid(c@) && c@ == (ContractView {
                owner: owner_id@,
                stock: entries_insert_all(Seq::empty(), pairs_view(stock@)),
                regions: entries_insert_all(Seq::empty(), pairs_view(regions@)),
                basket: basket_view(basket),
                near_price,
                pending: entries_insert_all(Seq::empty(), pairs_view(pending@)),
                fulfilled: entries_insert_all(Seq::empty(), pairs_view(fulfilled@)),
            }),
    {
        if !all_two_chars(&regions) || !all_available(&stock) || !all_keyed(&pending) || !all_keyed(&fulfilled) {
            return None;
        }
        let ghost ps = pairs_view(stock@);
        let ghost pr = pairs_view(regions@);
        let ghost pp = pairs_view(pending@);
        let ghost pf = pairs_view(fulfilled@);
        let stock_map = StoreMap::from_pairs(stock);
        let region_map = StoreMap::from_pairs(regions);
        let pending_map = StoreMap::from_pairs(pending);
        let fulfilled_map = StoreMap::from_pairs(fulfilled);
        proof {
            use_type_invariant(&stock_map);
            use_type_invariant(&region_map);
            use_type_invariant(&pending_map);
            use_type_invariant(&fulfilled_map);
            lemma_insert_all_elements(ps);
            lemma_insert_all_elements(pr);
            lemma_insert_all_elements(pp);
            lemma_insert_all_elements(pf);
            let ts = stock_map@;
            assert forall|k: int| 0 <= k < ts.len() implies (#[trigger] ts[k]).1.availability by {
                let m = choose|m: int| 0 <= m < ps.len() && ps[m] == ts[k];
            }
            let tr = region_map@;
            assert forall|k: int| 0 <= k < tr.len() implies (#[trigger] tr[k]).0.len() == 2 by {
                let m = choose|m: int| 0 <= m < pr.len() && pr[m] == tr[k];
            }
            let tp = pending_map@;
            assert forall|k: int| 0 <= k < tp.len() implies (#[trigger] tp[k]).1.order_id == tp[k].0
                && tp[k].1.event == PURCHASE_EVENT@ by {
                let m = choose|m: int| 0 <= m < pp.len() && pp[m] == tp[k];
            }
            let tf = fulfilled_map@;
            assert forall|k: int| 0 <= k < tf.len() implies (#[trigger] tf[k]).1.order_id == tf[k].0
                && tf[k].1.event == PURCHASE_EVENT@ by {
                let m = choose|m: int| 0 <= m < pf.len() && pf[m] == tf[k];
            }
        }
        Some(Contract {
            owner_id,
            marketplace_stock: stock_map,
            delivery_regions: region_map,
            user_basket: basket,
            last_near_price: near_price,
            pending_orders: pending_map,
            fulfilled_orders: fulfilled_map,
        })
    }

    /// The owner's account.
    pub fn owner_id(&self) -> (r: String)
        ensures
            r@ == self@.owner,
    {
        self.owner_id.clone()
    }

    /// The last NEAR price that the oracle gave.
    pub fn last_near_price(&self) -> (r: Option<u128>)
        ensures
            r == self@.near_price,
    {
        self.last_near_price
    }

    /// A copy of the purchase under way.
    pub fn user_basket(&self) -> (r: Option<Basket>)
        ensures
            basket_view(r) == self@.basket,
    {
        match &self.user_basket {
            Some(b) => Some(b.duplicate()),
            None => None,
        }
    }

    /// The region code that a purchase message names: its second character
    /// followed by its last, or nothing when it has fewer than two.
    pub fn region_check(input: &String) -> (r: String)
        ensures
            r@ == region_of(input@),
    {
        let s = input.as_str();
        let n = char_count(s);
        let mut r = String::new();
        if n >= 2 {
            crate::text::push_char(&mut r, crate::text::char_at(s, 1));
            crate::text::push_char(&mut r, crate::text::char_at(s, n - 1));
        }
        assert(r@ =~= region_of(input@));
        r
    }
}

} // verus!
