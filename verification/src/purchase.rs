//! A purchase, from the request to the recorded order: checking the
//! request, reading the oracle's answer, pricing the basket and booking the
//! order, and where the deposit goes afterwards.

use vstd::prelude::*;
use crate::{valid, Contract, ContractView, ItemView, RegionView, Basket, BasketItem, BasketView, PurchaseEvent, EventView, PriceBits,
    StoreError, region_of, MINIMUM_ORDER, PRICE_ORACLE, ASSET_ID_REF, DELIVERY_BAND, PURCHASE_EVENT};
use crate::models::Asset;
use crate::store_map::{StoreMap, pairs_view, has_key, lookup, entries_insert, entries_insert_all};
use crate::text::{split, split_on, contains_string, push_char};
use crate::decimal::{DecError, parse_unsigned, parse_u64, dec_digits, u64_to_dec};
use vstd::string::*;
use crate::account::{is_valid_account_id, valid_account_id};
use crate::history::{StoreOp, step, law_step_valid};

verus! {

/// How a cross-contract call failed (the kinds of the host's promise error).
#[derive(Debug, Clone, Copy, PartialEq, Eq, Structural)]
pub enum PromiseFailure {
    Failed,
    NotReady,
}

/// The call that a purchase asks the host to make: the price of `asset_id`
/// from `oracle`, with `deposit` passed on to the callbacks.
pub struct PriceQuery {
    pub oracle: String,
    pub asset_id: String,
    pub deposit: u128,
}

/// Where the deposit of a purchase goes once it is settled.
pub enum RefundAction {
    /// Send `amount` to `receiver`.
    Transfer { receiver: String, amount: u128 },
    /// Keep it.
    Keep,
}

/// Why a checkout fails.
#[derive(Debug, Clone, Copy, PartialEq, Eq, Structural)]
pub enum CheckoutError {
    /// The oracle call failed.
    OracleFailed,
    /// The oracle knows no such asset.
    AssetMissing,
    /// The asset has no moving average.
    NoEma,
    /// The first moving average has no price.
    EmaWithoutPrice,
    /// No purchase is under way.
    NoBasket,
    /// A basket key has fewer than three `_`-separated parts.
    MalformedItemKey,
    /// The weight part of a basket key is not a whole number of grams.
    InvalidGrams,
    /// A basket key names an item that is not in stock.
    UnknownItem,
    /// The item has no price for the weight asked.
    InvalidOption,
    /// The basket's region has no delivery rates.
    RegionMissing,
    /// A weight tier that the parcel needs has no rate in the delivery band.
    RateMissing,
    /// The total weight is no sum of parcels of 2000, 1000, 500 and 250 grams.
    UndeliverableWeight,
    /// The deposit does not cover the checkout price.
    InsufficientDeposit,
}

/// What a purchase request is answered, the state aside.
pub open spec fn purchase_check(v: ContractView, deposit: u128, message: Seq<char>, n_items: nat) -> Result<(), StoreError> {
    if deposit < MINIMUM_ORDER {
        Err(StoreError::BelowMinimumOrder)
    } else if n_items == 0 {
        Err(StoreError::EmptyBasket)
    } else if !has_key(v.regions, region_of(message)) {
        Err(StoreError::UnsupportedRegion)
    } else if !valid_account_id(PRICE_ORACLE.spec_bytes()) {
        Err(StoreError::InvalidOracleAccount)
    } else {
        Ok(())
    }
}

/// A priced line of the basket.
pub struct CheckoutLine {
    pub key: String,
    pub count: u16,
    pub price: PriceBits,
}

pub struct LineView {
    pub key: Seq<char>,
    pub count: u16,
    pub price: PriceBits,
}

impl View for CheckoutLine {
    type V = LineView;

    open spec fn view(&self) -> LineView {
        LineView { key: self.key@, count: self.count, price: self.price }
    }
}

/// Parcels of one weight and the rate each is charged.
pub struct DeliveryCharge {
    pub weight: u64,
    pub parcels: u128,
    pub rate: PriceBits,
}

pub struct ChargeView {
    pub weight: nat,
    pub parcels: nat,
    pub rate: PriceBits,
}

impl View for DeliveryCharge {
    type V = ChargeView;

    open spec fn view(&self) -> ChargeView {
        ChargeView { weight: self.weight as nat, parcels: self.parcels as nat, rate: self.rate }
    }
}

/// Everything a checkout is priced from: the NEAR price, the basket lines
/// whose grind is offered with their unit prices (in basket order), the
/// items with their counts, the delivery parcels with their rates, and the
/// buyer's message.
pub struct CheckoutPlan {
    pub near_price: u128,
    pub lines: Vec<CheckoutLine>,
    pub items: Vec<(String, u16)>,
    pub delivery: Vec<DeliveryCharge>,
    pub message: String,
}

pub struct PlanView {
    pub near_price: u128,
    pub lines: Seq<LineView>,
    pub items: Seq<(Seq<char>, u16)>,
    pub delivery: Seq<ChargeView>,
    pub message: Seq<char>,
}

impl View for CheckoutPlan {
    type V = PlanView;

    open spec fn view(&self) -> PlanView {
        PlanView {
            near_price: self.near_price,
            lines: self.lines@.map_values(|l: CheckoutLine| l@),
            items: pairs_view(self.items@),
            delivery: self.delivery@.map_values(|c: DeliveryCharge| c@),
            message: self.message@,
        }
    }
}

/// The NEAR price in the oracle's answer: the multiplier of the first
/// moving average.
pub open spec fn oracle_price(call_result: Result<Option<Asset>, PromiseFailure>) -> Result<u128, CheckoutError> {
    match call_result {
        Err(_) => Err(CheckoutError::OracleFailed),
        Ok(None) => Err(CheckoutError::AssetMissing),
        Ok(Some(a)) => if a.emas@.len() == 0 {
            Err(CheckoutError::NoEma)
        } else {
            match a.emas@[0].price {
                None => Err(CheckoutError::EmaWithoutPrice),
                Some(p) => Ok(p.multiplier),
            }
        },
    }
}

/// One basket entry `id_grams_grind` with its count: its weight in grams,
/// and its priced line when the item comes in that grind.
pub open spec fn basket_entry(stock: Seq<(Seq<char>, ItemView)>, key: Seq<char>, count: u16) -> Result<(nat, Option<LineView>), CheckoutError> {
    let parts = split_on(key, '_');
    if parts.len() < 3 {
        Err(CheckoutError::MalformedItemKey)
    } else {
        match parse_unsigned(parts[1], u64::MAX as nat) {
            Err(_) => Err(CheckoutError::InvalidGrams),
            Ok(g) => match lookup(stock, parts[0]) {
                None => Err(CheckoutError::UnknownItem),
                Some(item) => if !item.grinds.contains(parts[2]) {
                    Ok((g, None))
                } else {
                    match lookup(item.price_range, parts[1]) {
                        None => Err(CheckoutError::InvalidOption),
                        Some(p) => Ok((g, Some(LineView { key, count, price: p }))),
                    }
                },
            },
        }
    }
}

/// The whole basket: the total of the weights and the priced lines, or the
/// first entry that fails.
pub open spec fn basket_lines(stock: Seq<(Seq<char>, ItemView)>, items: Seq<(Seq<char>, u16)>) -> Result<(nat, Seq<LineView>), CheckoutError>
    decreases items.len(),
{
    if items.len() == 0 {
        Ok((0, Seq::empty()))
    } else {
        match basket_lines(stock, items.drop_last()) {
            Err(e) => Err(e),
            Ok((g, ls)) => match basket_entry(stock, items.last().0, items.last().1) {
                Err(e) => Err(e),
                Ok((g2, None)) => Ok((g + g2, ls)),
                Ok((g2, Some(l))) => Ok((g + g2, ls.push(l))),
            },
        }
    }
}

/// The items of the priced lines with their counts, the last count of a key winning.
pub open spec fn line_counts(ls: Seq<LineView>) -> Seq<(Seq<char>, u16)> {
    entries_insert_all(Seq::<(Seq<char>, u16)>::empty(), ls.map_values(|l: LineView| (l.key, l.count)))
}

/// The parcels of one weight: none, or all at the band's rate.
pub open spec fn tier_charge(table: Seq<(Seq<char>, PriceBits)>, weight: nat, parcels: nat) -> Result<Seq<ChargeView>, CheckoutError> {
    if parcels == 0 {
        Ok(Seq::empty())
    } else {
        match lookup(table, DELIVERY_BAND@) {
            None => Err(CheckoutError::RateMissing),
            Some(rate) => Ok(seq![ChargeView { weight, parcels, rate }]),
        }
    }
}

/// The parcels that carry `grams`, heaviest first: as many 2000 g parcels
/// as fit, then 1000 g, 500 g and 250 g ones, with their rates.
pub open spec fn delivery_charges(region: RegionView, grams: nat) -> Result<Seq<ChargeView>, CheckoutError> {
    let c2000 = grams / 2000;
    let r2000 = grams % 2000;
    let c1000 = r2000 / 1000;
    let r1000 = r2000 % 1000;
    let c500 = r1000 / 500;
    let r500 = r1000 % 500;
    let c250 = r500 / 250;
    let rest = r500 % 250;
    match tier_charge(region.grams_2000, 2000, c2000) {
        Err(e) => Err(e),
        Ok(a) => match tier_charge(region.grams_1000, 1000, c1000) {
            Err(e) => Err(e),
            Ok(b) => match tier_charge(region.grams_500, 500, c500) {
                Err(e) => Err(e),
                Ok(c) => match tier_charge(region.grams_250, 250, c250) {
                    Err(e) => Err(e),
                    Ok(d) => if rest != 0 {
                        Err(CheckoutError::UndeliverableWeight)
                    } else {
                        Ok(a + b + c + d)
                    },
                },
            },
        },
    }
}

/// The checkout of the purchase under way, given the oracle's answer.
pub open spec fn checkout(v: ContractView, call_result: Result<Option<Asset>, PromiseFailure>) -> Result<PlanView, CheckoutError> {
    match oracle_price(call_result) {
        Err(e) => Err(e),
        Ok(near_price) => match v.basket {
            None => Err(CheckoutError::NoBasket),
            Some(b) => match basket_lines(v.stock, b.basket_items) {
                Err(e) => Err(e),
                Ok((grams, lines)) => match lookup(v.regions, b.region_code) {
                    None => Err(CheckoutError::RegionMissing),
                    Some(region) => match delivery_charges(region, grams) {
                        Err(e) => Err(e),
                        Ok(delivery) => Ok(PlanView {
                            near_price,
                            lines,
                            items: line_counts(lines),
                            delivery,
                            message: b.message,
                        }),
                    },
                },
            },
        },
    }
}

/// The id of the order numbered `n` of `account`.
pub open spec fn order_id_for(account: Seq<char>, n: nat) -> Seq<char> {
    account + seq!['_'] + dec_digits(n)
}

/// The errors that a basket entry can give.
pub open spec fn is_entry_error(e: CheckoutError) -> bool {
    e == CheckoutError::MalformedItemKey || e == CheckoutError::InvalidGrams || e == CheckoutError::UnknownItem
        || e == CheckoutError::InvalidOption
}

proof fn lemma_basket_lines_errors(stock: Seq<(Seq<char>, ItemView)>, items: Seq<(Seq<char>, u16)>)
    ensures
        basket_lines(stock, items) matches Err(e) ==> is_entry_error(e),
    decreases items.len(),
{
    if items.len() > 0 {
        lemma_basket_lines_errors(stock, items.drop_last());
    }
}

/// Right after a purchase is accepted, its checkout never fails for want of
/// a basket or of delivery rates for its region: it fails only on the
/// oracle's answer, a basket entry or the parcels.
pub proof fn law_accepted_purchase_can_check_out(
    v: ContractView,
    caller: Seq<char>,
    deposit: u128,
    message: Seq<char>,
    items: Seq<(Seq<char>, u16)>,
    call_result: Result<Option<Asset>, PromiseFailure>,
)
    requires
        purchase_check(v, deposit, message, items.len()) is Ok,
    ensures
        ({
            let w = ContractView {
                basket: Some(BasketView { account_id: caller, message, region_code: region_of(message), basket_items: items }),
                ..v
            };
            checkout(w, call_result) matches Err(e) ==> e != CheckoutError::NoBasket && e != CheckoutError::RegionMissing
        }),
{
    lemma_basket_lines_errors(v.stock, items);
    let region = region_of(message);
    let j = choose|j: int| 0 <= j < v.regions.len() && #[trigger] v.regions[j].0 == region;
    assert(v.regions[j].0 == region);
}

/// The weight that a list of parcels carries.
pub open spec fn carried_weight(ch: Seq<ChargeView>) -> nat
    decreases ch.len(),
{
    if ch.len() == 0 {
        0
    } else {
        carried_weight(ch.drop_last()) + ch.last().weight * ch.last().parcels
    }
}

proof fn lemma_carried_weight_concat(a: Seq<ChargeView>, b: Seq<ChargeView>)
    ensures
        carried_weight(a + b) == carried_weight(a) + carried_weight(b),
    decreases b.len(),
{
    if b.len() == 0 {
        assert(a + b =~= a);
    } else {
        lemma_carried_weight_concat(a, b.drop_last());
        assert((a + b).drop_last() =~= a + b.drop_last());
    }
}

proof fn lemma_tier_weight(table: Seq<(Seq<char>, PriceBits)>, weight: nat, parcels: nat)
    ensures
        tier_charge(table, weight, parcels) matches Ok(s) ==> carried_weight(s) == weight * parcels,
{
    if parcels != 0 {
        if let Ok(s) = tier_charge(table, weight, parcels) {
            assert(s.drop_last() =~= Seq::<ChargeView>::empty());
            assert(carried_weight(Seq::<ChargeView>::empty()) == 0);
        }
    } else {
        assert(weight * parcels == 0) by (nonlinear_arith)
            requires
                parcels == 0,
        ;
    }
}

/// Delivery carries exactly the basket's weight: when the parcels of a
/// weight can be charged, their weights add up to it; and a weight that is
/// no multiple of 250 g is never delivered.
pub proof fn law_delivery_covers_weight(region: RegionView, grams: nat)
    ensures
        delivery_charges(region, grams) matches Ok(ch) ==> carried_weight(ch) == grams,
        grams % 250 != 0 ==> delivery_charges(region, grams) is Err,
{
    let c2000 = grams / 2000;
    let r2000 = grams % 2000;
    let c1000 = r2000 / 1000;
    let r1000 = r2000 % 1000;
    let c500 = r1000 / 500;
    let r500 = r1000 % 500;
    let c250 = r500 / 250;
    let rest = r500 % 250;
    assert(grams == 2000 * c2000 + 1000 * c1000 + 500 * c500 + 250 * c250 + rest) by (nonlinear_arith)
        requires
            c2000 == grams / 2000,
            r2000 == grams % 2000,
            c1000 == r2000 / 1000,
            r1000 == r2000 % 1000,
            c500 == r1000 / 500,
            r500 == r1000 % 500,
            c250 == r500 / 250,
            rest == r500 % 250,
    ;
    assert(rest == grams % 250) by (nonlinear_arith)
        requires
            grams == 2000 * c2000 + 1000 * c1000 + 500 * c500 + 250 * c250 + rest,
            rest == r500 % 250,
    ;
    lemma_tier_weight(region.grams_2000, 2000, c2000);
    lemma_tier_weight(region.grams_1000, 1000, c1000);
    lemma_tier_weight(region.grams_500, 500, c500);
    lemma_tier_weight(region.grams_250, 250, c250);
    if let Ok(ch) = delivery_charges(region, grams) {
        let a = tier_charge(region.grams_2000, 2000, c2000)->Ok_0;
        let b = tier_charge(region.grams_1000, 1000, c1000)->Ok_0;
        let c = tier_charge(region.grams_500, 500, c500)->Ok_0;
        let d = tier_charge(region.grams_250, 250, c250)->Ok_0;
        assert(ch == a + b + c + d);
        lemma_carried_weight_concat(a, b);
        lemma_carried_weight_concat(a + b, c);
        lemma_carried_weight_concat(a + b + c, d);
    }
}

/// The rate table of parcels of `weight` grams.
pub open spec fn tier_table(region: RegionView, weight: nat) -> Seq<(Seq<char>, PriceBits)> {
    if weight == 2000 {
        region.grams_2000
    } else if weight == 1000 {
        region.grams_1000
    } else if weight == 500 {
        region.grams_500
    } else {
        region.grams_250
    }
}

/// Delivery packs greedily: parcels of 2000, 1000, 500 and 250 g, heaviest
/// first, each weight at most once and, below 2000 g, a single parcel, each
/// at its weight's band rate. With the delivery covering the exact weight,
/// this leaves one way to pack. A weight that is a multiple of 250 g is
/// always delivered when all four weights have a band rate.
pub proof fn law_delivery_is_greedy(region: RegionView, grams: nat)
    ensures
        delivery_charges(region, grams) matches Ok(ch) ==> {
            &&& forall|i: int| 0 <= i < ch.len() ==> (#[trigger] ch[i]).weight == 2000 || ch[i].weight == 1000
                || ch[i].weight == 500 || ch[i].weight == 250
            &&& forall|i: int| 0 <= i < ch.len() ==> (#[trigger] ch[i]).parcels > 0 && (ch[i].weight < 2000
                ==> ch[i].parcels == 1)
            &&& forall|i: int, j: int| 0 <= i < j < ch.len() ==> (#[trigger] ch[i]).weight > (#[trigger] ch[j]).weight
            &&& forall|i: int| 0 <= i < ch.len() ==> lookup(tier_table(region, (#[trigger] ch[i]).weight), DELIVERY_BAND@)
                == Some(ch[i].rate)
        },
        grams % 250 == 0 && lookup(region.grams_2000, DELIVERY_BAND@) is Some && lookup(region.grams_1000, DELIVERY_BAND@) is Some
            && lookup(region.grams_500, DELIVERY_BAND@) is Some && lookup(region.grams_250, DELIVERY_BAND@) is Some
            ==> delivery_charges(region, grams) is Ok,
{
    let c2000 = grams / 2000;
    let r2000 = grams % 2000;
    let c1000 = r2000 / 1000;
    let r1000 = r2000 % 1000;
    let c500 = r1000 / 500;
    let r500 = r1000 % 500;
    let c250 = r500 / 250;
    assert(c1000 <= 1 && c500 <= 1 && c250 <= 1) by (nonlinear_arith)
        requires
            r2000 == grams % 2000,
            c1000 == r2000 / 1000,
            r1000 == r2000 % 1000,
            c500 == r1000 / 500,
            r500 == r1000 % 500,
            c250 == r500 / 250,
    ;
    if let Ok(ch) = delivery_charges(region, grams) {
        let a = tier_charge(region.grams_2000, 2000, c2000)->Ok_0;
        let b = tier_charge(region.grams_1000, 1000, c1000)->Ok_0;
        let c = tier_charge(region.grams_500, 500, c500)->Ok_0;
        let d = tier_charge(region.grams_250, 250, c250)->Ok_0;
        assert(ch == a + b + c + d);
        assert(Seq::<ChargeView>::empty() + a =~= a);
        lemma_pack_append(region, Seq::empty(), a, 2000, 2000);
        lemma_pack_append(region, a, b, 2000, 1000);
        lemma_pack_append(region, a + b, c, 1000, 500);
        lemma_pack_append(region, a + b + c, d, 500, 250);
    }
}

/// Charges packed heaviest first, each weight once, below 2000 g a single
/// parcel, at their band rates, and none lighter than `lo`.
pub open spec fn packed(region: RegionView, ch: Seq<ChargeView>, lo: nat) -> bool {
    &&& forall|i: int| 0 <= i < ch.len() ==> (#[trigger] ch[i]).weight == 2000 || ch[i].weight == 1000
        || ch[i].weight == 500 || ch[i].weight == 250
    &&& forall|i: int| 0 <= i < ch.len() ==> (#[trigger] ch[i]).parcels > 0 && (ch[i].weight < 2000 ==> ch[i].parcels == 1)
    &&& forall|i: int, j: int| 0 <= i < j < ch.len() ==> (#[trigger] ch[i]).weight > (#[trigger] ch[j]).weight
    &&& forall|i: int| 0 <= i < ch.len() ==> lookup(tier_table(region, (#[trigger] ch[i]).weight), DELIVERY_BAND@)
        == Some(ch[i].rate)
    &&& forall|i: int| 0 <= i < ch.len() ==> (#[trigger] ch[i]).weight >= lo
}

proof fn lemma_pack_append(region: RegionView, x: Seq<ChargeView>, y: Seq<ChargeView>, lo1: nat, lo2: nat)
    requires
        x.len() == 0 || packed(region, x, lo1),
        lo2 < lo1 || (x.len() == 0 && lo2 == lo1),
        lo2 == 2000 || lo2 == 1000 || lo2 == 500 || lo2 == 250,
        y.len() <= 1,
        y.len() == 1 ==> y[0].weight == lo2 && y[0].parcels > 0 && (lo2 < 2000 ==> y[0].parcels == 1)
            && lookup(tier_table(region, lo2), DELIVERY_BAND@) == Some(y[0].rate),
    ensures
        packed(region, x + y, lo2),
{
    if y.len() == 0 {
        assert(x + y =~= x);
    } else {
        assert(x + y =~= x.push(y[0]));
    }
}

/// An empty basket weighs nothing and has no lines; adding an entry
/// `id_grams_grind` to a basket that prices adds its grams to the weight
/// and, when the item comes in that grind and has a price for those grams,
/// exactly its line at that price; when the item does not come in that
/// grind, no line.
pub proof fn law_basket_grows_by_entry(stock: Seq<(Seq<char>, ItemView)>, items: Seq<(Seq<char>, u16)>, key: Seq<char>, count: u16)
    requires
        basket_lines(stock, items) is Ok,
    ensures
        basket_lines(stock, Seq::empty()) == Ok::<(nat, Seq<LineView>), CheckoutError>((0, Seq::empty())),
        ({
            let parts = split_on(key, '_');
            let before = basket_lines(stock, items)->Ok_0;
            let after = basket_lines(stock, items.push((key, count)));
            parts.len() >= 3 && parse_unsigned(parts[1], u64::MAX as nat) is Ok && lookup(stock, parts[0]) is Some
                ==> {
                let g = parse_unsigned(parts[1], u64::MAX as nat)->Ok_0;
                let item = lookup(stock, parts[0])->Some_0;
                &&& !item.grinds.contains(parts[2]) ==> after == Ok::<(nat, Seq<LineView>), CheckoutError>(
                    (before.0 + g, before.1),
                )
                &&& item.grinds.contains(parts[2]) && lookup(item.price_range, parts[1]) is Some ==> after == Ok::<
                    (nat, Seq<LineView>),
                    CheckoutError,
                >((before.0 + g, before.1.push(LineView { key, count, price: lookup(item.price_range, parts[1])->Some_0 })))
            }
        }),
{
    assert(items.push((key, count)).drop_last() =~= items);
}

/// A priced line stands for an item of the stock offered in the line's
/// grind, at the stock's price for the line's weight option.
pub open spec fn priced_from_stock(stock: Seq<(Seq<char>, ItemView)>, l: LineView) -> bool {
    let parts = split_on(l.key, '_');
    &&& parts.len() >= 3
    &&& lookup(stock, parts[0]) is Some
    &&& lookup(stock, parts[0])->Some_0.grinds.contains(parts[2])
    &&& lookup(lookup(stock, parts[0])->Some_0.price_range, parts[1]) == Some(l.price)
}

/// Every line of a priced basket is priced as the stock says, and a basket
/// has no more lines than entries.
pub proof fn law_lines_priced_from_stock(stock: Seq<(Seq<char>, ItemView)>, items: Seq<(Seq<char>, u16)>)
    ensures
        basket_lines(stock, items) matches Ok((g, ls)) ==> ls.len() <= items.len() && forall|j: int|
            0 <= j < ls.len() ==> priced_from_stock(stock, #[trigger] ls[j]),
    decreases items.len(),
{
    if items.len() > 0 {
        law_lines_priced_from_stock(stock, items.drop_last());
    }
}

/// The items of an order name each key once.
pub proof fn law_order_items_distinct(ls: Seq<LineView>)
    ensures
        crate::store_map::distinct_keys(line_counts(ls)),
{
    lemma_insert_all_distinct(ls.map_values(|l: LineView| (l.key, l.count)));
}

proof fn lemma_insert_all_distinct(p: Seq<(Seq<char>, u16)>)
    ensures
        crate::store_map::distinct_keys(entries_insert_all(Seq::<(Seq<char>, u16)>::empty(), p)),
    decreases p.len(),
{
    if p.len() > 0 {
        lemma_insert_all_distinct(p.drop_last());
        let prev = entries_insert_all(Seq::<(Seq<char>, u16)>::empty(), p.drop_last());
        crate::store_map::law_lookup_after_insert(prev, p.last().0, p.last().1, p.last().0);
    }
}

/// A purchase whose message is too short to name a region is refused for
/// its region, whatever regions the owner has set up.
pub proof fn law_short_message_refused(v: ContractView, deposit: u128, message: Seq<char>, n_items: nat)
    requires
        valid(v),
        deposit >= MINIMUM_ORDER,
        n_items > 0,
        message.len() < 2,
    ensures
        purchase_check(v, deposit, message, n_items) == Err::<(), StoreError>(StoreError::UnsupportedRegion),
{
    if has_key(v.regions, region_of(message)) {
        let i = choose|i: int| 0 <= i < v.regions.len() && #[trigger] v.regions[i].0 == region_of(message);
        assert(v.regions[i].0.len() == 2);
    }
}

pub open spec fn lines_view(s: Seq<CheckoutLine>) -> Seq<LineView> {
    s.map_values(|l: CheckoutLine| l@)
}

pub open spec fn charges_view(s: Seq<DeliveryCharge>) -> Seq<ChargeView> {
    s.map_values(|c: DeliveryCharge| c@)
}

/// Once a prefix of the basket fails, the whole basket fails the same way.
proof fn lemma_basket_lines_prefix_err(stock: Seq<(Seq<char>, ItemView)>, items: Seq<(Seq<char>, u16)>, k: nat)
    requires
        k <= items.len(),
        basket_lines(stock, items.subrange(0, k as int)) is Err,
    ensures
        basket_lines(stock, items) == basket_lines(stock, items.subrange(0, k as int)),
    decreases items.len() - k,
{
    if k < items.len() {
        assert(items.subrange(0, (k + 1) as int).drop_last() =~= items.subrange(0, k as int));
        lemma_basket_lines_prefix_err(stock, items, k + 1);
    } else {
        assert(items.subrange(0, k as int) =~= items);
    }
}

/// The NEAR price in the oracle's answer.
fn read_oracle(call_result: &Result<Option<Asset>, PromiseFailure>) -> (r: Result<u128, CheckoutError>)
    ensures
        r == oracle_price(*call_result),
{
    match call_result {
        Err(_) => Err(CheckoutError::OracleFailed),
        Ok(None) => Err(CheckoutError::AssetMissing),
        Ok(Some(a)) => {
            if a.emas.len() == 0 {
                Err(CheckoutError::NoEma)
            } else {
                match a.emas[0].price {
                    None => Err(CheckoutError::EmaWithoutPrice),
                    Some(p) => Ok(p.multiplier),
                }
            }
        },
    }
}

/// Adds the parcels of one weight to `out`.
fn charge_tier(
    table: &StoreMap<PriceBits>,
    weight: u64,
    parcels: u128,
    band: &String,
    out: &mut Vec<DeliveryCharge>,
) -> (r: Result<(), CheckoutError>)
    requires
        band@ == DELIVERY_BAND@,
    ensures
        match tier_charge(table@, weight as nat, parcels as nat) {
            Ok(s) => r is Ok && charges_view(final(out)@) == charges_view(old(out)@) + s,
            Err(e) => r == Err::<(), CheckoutError>(e),
        },
{
    if parcels == 0 {
        assert(charges_view(out@) =~= charges_view(out@) + Seq::<ChargeView>::empty());
        return Ok(());
    }
    match table.get(band) {
        None => Err(CheckoutError::RateMissing),
        Some(rate) => {
            let ghost before = charges_view(out@);
            out.push(DeliveryCharge { weight, parcels, rate: *rate });
            assert(charges_view(out@) =~= before + seq![ChargeView { weight: weight as nat, parcels: parcels as nat, rate: *rate }]);
            Ok(())
        },
    }
}

/// The parcels that carry `grams` in `region`.
fn plan_delivery(region: &crate::DeliveryRegion, grams: u128) -> (r: Result<Vec<DeliveryCharge>, CheckoutError>)
    ensures
        match r {
            Ok(v) => delivery_charges(region@, grams as nat) == Ok::<Seq<ChargeView>, CheckoutError>(charges_view(v@)),
            Err(e) => delivery_charges(region@, grams as nat) == Err::<Seq<ChargeView>, CheckoutError>(e),
        },
{
    let band = String::from_str(DELIVERY_BAND);
    let c2000 = grams / 2000;
    let r2000 = grams % 2000;
    let c1000 = r2000 / 1000;
    let r1000 = r2000 % 1000;
    let c500 = r1000 / 500;
    let r500 = r1000 % 500;
    let c250 = r500 / 250;
    let rest = r500 % 250;
    let mut out: Vec<DeliveryCharge> = Vec::new();
    assert(charges_view(out@) =~= Seq::<ChargeView>::empty());
    charge_tier(&region.grams_2000, 2000, c2000, &band, &mut out)?;
    charge_tier(&region.grams_1000, 1000, c1000, &band, &mut out)?;
    charge_tier(&region.grams_500, 500, c500, &band, &mut out)?;
    charge_tier(&region.grams_250, 250, c250, &band, &mut out)?;
    if rest != 0 {
        return Err(CheckoutError::UndeliverableWeight);
    }
    Ok(out)
}

impl Contract {
    /// Prices the basket entries: their total weight, the priced lines and
    /// the items with their counts.
    fn price_basket(&self, items: &Vec<(String, u16)>) -> (r: Result<(u128, Vec<CheckoutLine>, StoreMap<u16>), CheckoutError>)
        ensures
            match r {
                Ok((g, ls, counts)) => basket_lines(self@.stock, pairs_view(items@)) == Ok::<(nat, Seq<LineView>), CheckoutError>((g as nat, lines_view(ls@)))
                    && counts@ == line_counts(lines_view(ls@)),
                Err(e) => basket_lines(self@.stock, pairs_view(items@)) == Err::<(nat, Seq<LineView>), CheckoutError>(e),
            },
    {
        let ghost stock = self@.stock;
        let ghost all = pairs_view(items@);
        let n = items.len();
        let mut total: u128 = 0;
        let mut lines: Vec<CheckoutLine> = Vec::new();
        let mut counts: StoreMap<u16> = StoreMap::new();
        let mut i: usize = 0;
        assert(all.subrange(0, 0) =~= Seq::<(Seq<char>, u16)>::empty());
        assert(lines_view(lines@) =~= Seq::<LineView>::empty());
        assert(lines_view(lines@).map_values(|l: LineView| (l.key, l.count)) =~= Seq::<(Seq<char>, u16)>::empty());
        while i < n
            invariant
                n == items@.len(),
                all == pairs_view(items@),
                stock == self@.stock,
                i <= n,
                total <= i * 0xffff_ffff_ffff_ffffu128,
                basket_lines(stock, all.subrange(0, i as int)) == Ok::<(nat, Seq<LineView>), CheckoutError>((total as nat, lines_view(lines@))),
                counts@ == line_counts(lines_view(lines@)),
            decreases n - i,
        {
            let e = &items[i];
            let key = &e.0;
            let count = e.1;
            assert(all[i as int] == (key@, count));
            let ghost pre = all.subrange(0, i as int);
            assert(all.subrange(0, i + 1).drop_last() =~= pre);
            assert(all.subrange(0, i + 1).last() == (key@, count));
            let parts = split(key, '_');
            if parts.len() < 3 {
                proof {
                    lemma_basket_lines_prefix_err(stock, all, (i + 1) as nat);
                }
                return Err(CheckoutError::MalformedItemKey);
            }
            let item_params = BasketItem { id: parts[0].clone(), grams: parts[1].clone(), grind: parts[2].clone() };
            assert(item_params.id@ == split_on(key@, '_')[0]);
            assert(item_params.grams@ == split_on(key@, '_')[1]);
            assert(item_params.grind@ == split_on(key@, '_')[2]);
            let g = match parse_u64(item_params.grams.as_str()) {
                Err(_) => {
                    proof {
                        lemma_basket_lines_prefix_err(stock, all, (i + 1) as nat);
                    }
                    return Err(CheckoutError::InvalidGrams);
                },
                Ok(g) => g,
            };
            assert(total + g <= (i + 1) * 0xffff_ffff_ffff_ffffu128) by (nonlinear_arith)
                requires
                    total <= i * 0xffff_ffff_ffff_ffffu128,
                    g <= 0xffff_ffff_ffff_ffffu64,
            ;
            assert((i + 1) * 0xffff_ffff_ffff_ffffu128 <= 0xffff_ffff_ffff_ffffu128 * 0xffff_ffff_ffff_ffffu128) by (nonlinear_arith)
                requires
                    i + 1 <= 0xffff_ffff_ffff_ffffu128,
            ;
            total = total + g as u128;
            match self.marketplace_stock.get(&item_params.id) {
                None => {
                    proof {
                        lemma_basket_lines_prefix_err(stock, all, (i + 1) as nat);
                    }
                    return Err(CheckoutError::UnknownItem);
                },
                Some(item) => {
                    if contains_string(&item.grinds, &item_params.grind) {
                        match item.price_range.get(&item_params.grams) {
                            None => {
                                proof {
                                    lemma_basket_lines_prefix_err(stock, all, (i + 1) as nat);
                                }
                                return Err(CheckoutError::InvalidOption);
                            },
                            Some(p) => {
                                let ghost lv = lines_view(lines@);
                                lines.push(CheckoutLine { key: key.clone(), count, price: *p });
                                assert(lines_view(lines@) =~= lv.push(LineView { key: key@, count, price: *p }));
                                assert(lines_view(lines@).map_values(|l: LineView| (l.key, l.count)).drop_last()
                                    =~= lv.map_values(|l: LineView| (l.key, l.count)));
                                counts.insert(key.clone(), count);
                            },
                        }
                    }
                },
            }
            i = i + 1;
        }
        assert(all.subrange(0, n as int) =~= all);
        Ok((total, lines, counts))
    }
}

impl Contract {
    /// Starts a purchase: the deposit must reach the minimum order, the
    /// basket must hold an item, the region that the message names must
    /// have delivery rates, and the oracle's account id must be valid. The
    /// basket is then kept, under the caller's account, and the host is
    /// asked to fetch the NEAR price from the oracle.
    pub fn confirm_purchase(
        &mut self,
        caller: &String,
        attached_deposit: u128,
        encoded_message: String,
        items: Vec<(String, u16)>,
    ) -> (r: Result<PriceQuery, StoreError>)
        ensures
            r is Ok <==> purchase_check(old(self)@, attached_deposit, encoded_message@, items@.len()) is Ok,
            r matches Err(e) ==> purchase_check(old(self)@, attached_deposit, encoded_message@, items@.len())
                == Err::<(), StoreError>(e) && final(self)@ == old(self)@,
            r matches Ok(q) ==> q.oracle@ == PRICE_ORACLE@ && q.asset_id@ == ASSET_ID_REF@ && q.deposit == attached_deposit
                && final(self)@ == (ContractView {
                basket: Some(BasketView {
                    account_id: caller@,
                    message: encoded_message@,
                    region_code: region_of(encoded_message@),
                    basket_items: pairs_view(items@),
                }),
                ..old(self)@
            }),
            valid(final(self)@),
            final(self)@ == step(old(self)@, StoreOp::Purchase {
                caller: caller@,
                deposit: attached_deposit,
                message: encoded_message@,
                items: pairs_view(items@),
            }),
    {
        proof {
            use_type_invariant(&*self);
        }
        if attached_deposit < MINIMUM_ORDER {
            return Err(StoreError::BelowMinimumOrder);
        }
        if items.len() < 1 {
            return Err(StoreError::EmptyBasket);
        }
        let delivery_region = Self::region_check(&encoded_message);
        if !self.delivery_regions.contains_key(&delivery_region) {
            return Err(StoreError::UnsupportedRegion);
        }
        if !is_valid_account_id(PRICE_ORACLE.as_bytes()) {
            return Err(StoreError::InvalidOracleAccount);
        }
        let basket = Basket {
            account_id: caller.clone(),
            region_code: delivery_region,
            message: encoded_message,
            basket_items: items,
        };
        self.user_basket = Some(basket);
        Ok(PriceQuery {
            oracle: String::from_str(PRICE_ORACLE),
            asset_id: String::from_str(ASSET_ID_REF),
            deposit: attached_deposit,
        })
    }

    /// Where the deposit goes once the checkout has answered: to the owner
    /// when the order was booked, nowhere when the checkout declined, back to
    /// the signer when the checkout failed.
    pub fn refund_promise(
        &self,
        call_result: Result<bool, PromiseFailure>,
        signer: &String,
        attached_deposit: u128,
    ) -> (r: RefundAction)
        ensures
            match call_result {
                Ok(true) => r matches RefundAction::Transfer { receiver, amount } && receiver@ == self@.owner
                    && amount == attached_deposit,
                Ok(false) => r is Keep,
                Err(_) => r matches RefundAction::Transfer { receiver, amount } && receiver@ == signer@
                    && amount == attached_deposit,
            },
    {
        match call_result {
            Ok(success) => {
                if success {
                    RefundAction::Transfer { receiver: self.owner_id.clone(), amount: attached_deposit }
                } else {
                    RefundAction::Keep
                }
            },
            Err(_) => RefundAction::Transfer { receiver: signer.clone(), amount: attached_deposit },
        }
    }

    /// Reads the oracle's answer and prices the purchase under way: the
    /// NEAR price, the basket lines whose grind the item comes in with their
    /// unit prices, and the delivery parcels of the basket's region with
    /// their rates. Fails as `checkout` says.
    pub fn callback_get_price_data(&self, call_result: Result<Option<Asset>, PromiseFailure>) -> (r: Result<
        CheckoutPlan,
        CheckoutError,
    >)
        ensures
            match r {
                Ok(p) => checkout(self@, call_result) == Ok::<PlanView, CheckoutError>(p@),
                Err(e) => checkout(self@, call_result) == Err::<PlanView, CheckoutError>(e),
            },
    {
        let near_price = read_oracle(&call_result)?;
        let basket = match &self.user_basket {
            None => {
                return Err(CheckoutError::NoBasket);
            },
            Some(b) => b,
        };
        let (grams, lines, counts) = self.price_basket(&basket.basket_items)?;
        let region = match self.delivery_regions.get(&basket.region_code) {
            None => {
                return Err(CheckoutError::RegionMissing);
            },
            Some(region) => region,
        };
        let delivery = plan_delivery(region, grams)?;
        let items = counts.to_vec();
        let plan = CheckoutPlan { near_price, lines, items, delivery, message: basket.message.clone() };
        assert(plan@.lines == lines_view(plan.lines@));
        assert(plan@.delivery == charges_view(plan.delivery@));
        Ok(plan)
    }

    /// Books the order priced by `plan` once the host has computed its cost:
    /// when the deposit covers `required_deposit`, the order numbered by the
    /// count of all orders is recorded as pending under
    /// `<signer>_<number>` (replacing a pending order of that id) and the
    /// NEAR price is remembered; otherwise nothing changes.
    pub fn place_order(
        &mut self,
        plan: CheckoutPlan,
        attached_deposit: u128,
        required_deposit: u128,
        checkout_cost: PriceBits,
        signer: String,
    ) -> (r: Result<String, CheckoutError>)
        requires
            old(self)@.pending.len() + old(self)@.fulfilled.len() <= u64::MAX,
        ensures
            r is Ok <==> attached_deposit >= required_deposit,
            r matches Err(e) ==> e == CheckoutError::InsufficientDeposit && final(self)@ == old(self)@,
            r matches Ok(id) ==> id@ == order_id_for(signer@, old(self)@.pending.len() + old(self)@.fulfilled.len())
                && final(self)@ == (ContractView {
                near_price: Some(plan.near_price),
                pending: entries_insert(old(self)@.pending, id@, EventView {
                    order_id: id@,
                    account_id: signer@,
                    event: PURCHASE_EVENT@,
                    message: plan.message@,
                    items: pairs_view(plan.items@),
                    checkout_cost,
                }),
                ..old(self)@
            }),
            valid(final(self)@),
            final(self)@ == step(old(self)@, StoreOp::PlaceOrder {
                signer: signer@,
                deposit: attached_deposit,
                required: required_deposit,
                near_price: plan.near_price,
                message: plan.message@,
                items: pairs_view(plan.items@),
                cost: checkout_cost,
            }),
    {
        proof {
            use_type_invariant(&*self);
        }
        if attached_deposit < required_deposit {
            return Err(CheckoutError::InsufficientDeposit);
        }
        let new_order_id: u64 = self.pending_orders.len() as u64 + self.fulfilled_orders.len() as u64;
        let mut order_id = signer.clone();
        push_char(&mut order_id, '_');
        order_id.append(u64_to_dec(new_order_id).as_str());
        assert(order_id@ =~= order_id_for(signer@, new_order_id as nat));
        let purchase_event = PurchaseEvent {
            order_id: order_id.clone(),
            account_id: signer,
            event: String::from_str(PURCHASE_EVENT),
            message: plan.message,
            items: plan.items,
            checkout_cost,
        };
        let near_price = plan.near_price;
        proof {
            law_step_valid(self@, StoreOp::PlaceOrder {
                signer: purchase_event.account_id@,
                deposit: attached_deposit,
                required: required_deposit,
                near_price,
                message: purchase_event.message@,
                items: pairs_view(purchase_event.items@),
                cost: checkout_cost,
            });
        }
        let mut pending = StoreMap::new();
        std::mem::swap(&mut pending, &mut self.pending_orders);
        pending.insert(order_id.clone(), purchase_event);
        self.pending_orders = pending;
        self.last_near_price = Some(near_price);
        Ok(order_id)
    }
}

} // verus!
verus! {

/// The price oracle's account id obeys the rules of account ids.
pub proof fn lemma_price_oracle_id_valid()
    ensures
        valid_account_id(PRICE_ORACLE.spec_bytes()),
{
    reveal_strlit("priceoracle.near");
    assert(PRICE_ORACLE@.len() == 16);
    assert(vstd::string::is_ascii(PRICE_ORACLE));
    vstd::string::is_ascii_spec_bytes(PRICE_ORACLE);
    let b = PRICE_ORACLE.spec_bytes();
    assert(b.len() == 16);
}

/// Which purchase requests are accepted: exactly those whose deposit
/// reaches the minimum order, whose basket holds an item, and whose message,
/// of any length, names by its second and last characters a region that has
/// delivery rates. The refusals come in that order.
pub proof fn law_purchase_acceptance(v: ContractView, deposit: u128, message: Seq<char>, n_items: nat)
    requires
        valid(v),
    ensures
        purchase_check(v, deposit, message, n_items) is Ok <==> deposit >= MINIMUM_ORDER && n_items > 0
            && message.len() >= 2 && has_key(v.regions, seq![message[1], message[message.len() - 1]]),
        deposit < MINIMUM_ORDER ==> purchase_check(v, deposit, message, n_items) == Err::<(), StoreError>(
            StoreError::BelowMinimumOrder,
        ),
        deposit >= MINIMUM_ORDER && n_items == 0 ==> purchase_check(v, deposit, message, n_items) == Err::<
            (),
            StoreError,
        >(StoreError::EmptyBasket),
        deposit >= MINIMUM_ORDER && n_items > 0 && !(message.len() >= 2 && has_key(
            v.regions,
            seq![message[1], message[message.len() - 1]],
        )) ==> purchase_check(v, deposit, message, n_items) == Err::<(), StoreError>(StoreError::UnsupportedRegion),
{
    lemma_price_oracle_id_valid();
    if message.len() < 2 && has_key(v.regions, region_of(message)) {
        let i = choose|i: int| 0 <= i < v.regions.len() && #[trigger] v.regions[i].0 == region_of(message);
        assert(v.regions[i].0.len() == 2);
    }
}

/// The NEAR price of a checkout is the multiplier of the first moving
/// average of the oracle's answer: an answer without moving averages, or
/// whose first one has no price, fails on that, whatever the later moving
/// averages hold; otherwise the checkout fails on nothing about the oracle
/// and, when it succeeds, prices at the first moving average.
pub proof fn law_checkout_prices_at_first_ema(v: ContractView, a: Asset, f: PromiseFailure)
    ensures
        checkout(v, Err(f)) == Err::<PlanView, CheckoutError>(CheckoutError::OracleFailed),
        checkout(v, Ok(None)) == Err::<PlanView, CheckoutError>(CheckoutError::AssetMissing),
        a.emas@.len() == 0 ==> checkout(v, Ok(Some(a))) == Err::<PlanView, CheckoutError>(CheckoutError::NoEma),
        a.emas@.len() > 0 && a.emas@[0].price is None ==> checkout(v, Ok(Some(a))) == Err::<PlanView, CheckoutError>(
            CheckoutError::EmaWithoutPrice,
        ),
        a.emas@.len() > 0 && a.emas@[0].price is Some ==> match checkout(v, Ok(Some(a))) {
            Ok(p) => p.near_price == a.emas@[0].price->Some_0.multiplier,
            Err(e) => e != CheckoutError::OracleFailed && e != CheckoutError::AssetMissing && e != CheckoutError::NoEma
                && e != CheckoutError::EmaWithoutPrice,
        },
{
    if a.emas@.len() > 0 && a.emas@[0].price is Some {
        if let Some(b) = v.basket {
            lemma_basket_lines_errors(v.stock, b.basket_items);
        }
    }
}

/// Two oracle answers whose first moving averages are equal give the same
/// checkout, whatever their reports and later moving averages.
pub proof fn law_checkout_reads_only_first_ema(v: ContractView, a: Asset, b: Asset)
    requires
        a.emas@.len() > 0,
        b.emas@.len() > 0,
        a.emas@[0] == b.emas@[0],
    ensures
        checkout(v, Ok(Some(a))) == checkout(v, Ok(Some(b))),
{
}

proof fn lemma_dec_digits_no_leading_zero(n: nat)
    ensures
        dec_digits(n).len() == 1 || dec_digits(n)[0] != '0',
        n >= 1 ==> dec_digits(n)[0] != '0',
    decreases n,
{
    if n >= 10 {
        lemma_dec_digits_no_leading_zero(n / 10);
        assert(dec_digits(n)[0] == dec_digits(n / 10)[0]);
    }
}

/// An order id is the signer, `_`, and the shortest decimal text of the
/// order number, which reads back to that number.
pub proof fn law_order_id_reads_back(account: Seq<char>, n: nat)
    requires
        n <= u64::MAX,
    ensures
        order_id_for(account, n).len() > account.len() + 1,
        order_id_for(account, n).subrange(0, account.len() as int) == account,
        order_id_for(account, n)[account.len() as int] == '_',
        parse_unsigned(
            order_id_for(account, n).subrange(account.len() + 1 as int, order_id_for(account, n).len() as int),
            u64::MAX as nat,
        ) == Ok::<nat, DecError>(n),
        order_id_for(account, n).len() == account.len() + 2 || order_id_for(account, n)[account.len() + 1 as int] != '0',
{
    let id = order_id_for(account, n);
    let d = dec_digits(n);
    crate::decimal::law_dec_round_trip(n, u64::MAX as nat);
    lemma_dec_digits_no_leading_zero(n);
    assert(d.len() >= 1) by {
        if n >= 10 {
            assert(d == dec_digits(n / 10).push(crate::decimal::digit_char(n % 10)));
        }
    }
    assert(id.subrange(0, account.len() as int) =~= account);
    assert(id.subrange(account.len() + 1 as int, id.len() as int) =~= d);
    assert(id[account.len() + 1 as int] == d[0]);
}

/// Different order numbers of an account give different order ids.
pub proof fn law_order_ids_distinct(account: Seq<char>, n: nat, m: nat)
    requires
        n <= u64::MAX,
        m <= u64::MAX,
        n != m,
    ensures
        order_id_for(account, n) != order_id_for(account, m),
{
    law_order_id_reads_back(account, n);
    law_order_id_reads_back(account, m);
}

} // verus!
