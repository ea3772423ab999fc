//! The owner's operations on the stock, the delivery rates and the orders,
//! and the views of them.

use vstd::prelude::*;
use crate::{valid, Contract, ContractView, ItemView, RegionView, MarketplaceItem, DeliveryRegion, PurchaseEvent,
    PriceBits, StoreError};
use crate::store_map::{StoreMap, pairs_view, has_key, lookup, entries_insert, entries_remove,
    entries_insert_all, law_lookup_after_insert, law_lookup_after_remove, law_sizes};
use crate::text::{char_count, strings_of};
use crate::history::{StoreOp, step, law_step_valid};

verus! {

/// What a caller that is not the owner is answered.
pub open spec fn owner_check(v: ContractView, caller: Seq<char>) -> Result<(), StoreError> {
    if caller == v.owner {
        Ok(())
    } else {
        Err(StoreError::NotOwner)
    }
}

/// The table that a list of (option, price) pairs gives, a later pair
/// replacing an earlier one with the same option.
pub open spec fn price_table(p: Seq<(String, PriceBits)>) -> Seq<(Seq<char>, PriceBits)> {
    entries_insert_all(Seq::<(Seq<char>, PriceBits)>::empty(), pairs_view(p))
}

/// The order book after `order_id` is confirmed: it leaves the pending
/// orders and, when it was filled, joins the fulfilled ones with its record.
pub open spec fn confirmed(v: ContractView, order_id: Seq<char>, order_filled: bool) -> ContractView {
    ContractView {
        pending: entries_remove(v.pending, order_id),
        fulfilled: if order_filled && has_key(v.pending, order_id) {
            entries_insert(v.fulfilled, order_id, lookup(v.pending, order_id).unwrap())
        } else {
            v.fulfilled
        },
        ..v
    }
}

/// Confirming a pending order takes it out of the pending orders, leaves the
/// other pending orders as they were, and when the order was filled puts its
/// record, unchanged, among the fulfilled ones; the book stays valid.
pub proof fn law_confirm_order_moves_record(v: ContractView, order_id: Seq<char>, order_filled: bool)
    requires
        valid(v),
        has_key(v.pending, order_id),
    ensures
        valid(confirmed(v, order_id, order_filled)),
        lookup(confirmed(v, order_id, order_filled).pending, order_id) is None,
        forall|k: Seq<char>| k != order_id ==> lookup(#[trigger] confirmed(v, order_id, order_filled).pending, k) == lookup(v.pending, k),
        order_filled ==> lookup(confirmed(v, order_id, order_filled).fulfilled, order_id) == lookup(v.pending, order_id),
        !order_filled ==> confirmed(v, order_id, order_filled).fulfilled == v.fulfilled,
        confirmed(v, order_id, order_filled).pending.len() == v.pending.len() - 1,
        confirmed(v, order_id, order_filled).fulfilled.len() <= v.fulfilled.len() + 1,
{
    let w = confirmed(v, order_id, order_filled);
    law_lookup_after_remove(v.pending, order_id, order_id);
    assert forall|k: Seq<char>| k != order_id implies lookup(#[trigger] confirmed(v, order_id, order_filled).pending, k) == lookup(v.pending, k) by {
        law_lookup_after_remove(v.pending, order_id, k);
    }
    law_sizes(v.pending, order_id, lookup(v.pending, order_id).unwrap());
    if order_filled {
        law_lookup_after_insert(v.fulfilled, order_id, lookup(v.pending, order_id).unwrap(), order_id);
        law_sizes(v.fulfilled, order_id, lookup(v.pending, order_id).unwrap());
    }
}

/// Confirming an order that is not pending changes nothing.
pub proof fn law_confirm_unknown_order(v: ContractView, order_id: Seq<char>, order_filled: bool)
    requires
        !has_key(v.pending, order_id),
    ensures
        confirmed(v, order_id, order_filled) == v,
{
}

impl Contract {
    /// Succeeds exactly when `caller` is the owner.
    pub fn assert_owner(&self, caller: &String) -> (r: Result<(), StoreError>)
        ensures
            r == owner_check(self@, caller@),
    {
        if *caller == self.owner_id {
            Ok(())
        } else {
            Err(StoreError::NotOwner)
        }
    }

    /// Adds a new item to the stock, available, with its grinds and its
    /// price per weight option. Only the owner may, and only under an id that
    /// is not in stock yet.
    pub fn insert_marketplace_item(
        &mut self,
        caller: &String,
        item_id: String,
        item_name: String,
        grinds: Vec<String>,
        price: Vec<(String, PriceBits)>,
    ) -> (r: Result<(), StoreError>)
        ensures
            r == (if caller@ != old(self)@.owner {
                Err(StoreError::NotOwner)
            } else if has_key(old(self)@.stock, item_id@) {
                Err(StoreError::ItemAlreadyExists)
            } else {
                Ok(())
            }),
            r is Err ==> final(self)@ == old(self)@,
            r is Ok ==> final(self)@ == (ContractView {
                stock: old(self)@.stock.push((item_id@, ItemView {
                    name: item_name@,
                    grinds: strings_of(grinds@),
                    price_range: price_table(price@),
                    availability: true,
                })),
                ..old(self)@
            }),
            valid(final(self)@),
            final(self)@ == step(old(self)@, StoreOp::InsertItem {
                caller: caller@,
                id: item_id@,
                name: item_name@,
                grinds: strings_of(grinds@),
                prices: price_table(price@),
            }),
    {
        proof {
            use_type_invariant(&*self);
        }
        self.assert_owner(caller)?;
        if self.marketplace_stock.contains_key(&item_id) {
            return Err(StoreError::ItemAlreadyExists);
        }
        let new_item = MarketplaceItem {
            name: item_name,
            grinds: grinds,
            price_range: StoreMap::from_pairs(price),
            availability: true,
        };
        let ghost op = StoreOp::InsertItem {
            caller: caller@,
            id: item_id@,
            name: new_item.name@,
            grinds: strings_of(new_item.grinds@),
            prices: new_item.price_range@,
        };
        proof {
            law_step_valid(self@, op);
        }
        let mut stock = StoreMap::new();
        std::mem::swap(&mut stock, &mut self.marketplace_stock);
        stock.insert(item_id, new_item);
        self.marketplace_stock = stock;
        Ok(())
    }

    /// Sets the delivery rates of a region, replacing those it had. Only the
    /// owner may, and the region code must be two characters long.
    pub fn insert_delivery_regions(
        &mut self,
        caller: &String,
        region_code: String,
        grams_250_price: Vec<(String, PriceBits)>,
        grams_500_price: Vec<(String, PriceBits)>,
        grams_1000_price: Vec<(String, PriceBits)>,
        grams_2000_price: Vec<(String, PriceBits)>,
    ) -> (r: Result<(), StoreError>)
        ensures
            r == (if caller@ != old(self)@.owner {
                Err(StoreError::NotOwner)
            } else if region_code@.len() != 2 {
                Err(StoreError::InvalidRegionCode)
            } else {
                Ok(())
            }),
            r is Err ==> final(self)@ == old(self)@,
            r is Ok ==> final(self)@ == (ContractView {
                regions: entries_insert(old(self)@.regions, region_code@, RegionView {
                    grams_250: price_table(grams_250_price@),
                    grams_500: price_table(grams_500_price@),
                    grams_1000: price_table(grams_1000_price@),
                    grams_2000: price_table(grams_2000_price@),
                }),
                ..old(self)@
            }),
            valid(final(self)@),
            final(self)@ == step(old(self)@, StoreOp::InsertRegion {
                caller: caller@,
                code: region_code@,
                region: RegionView {
                    grams_250: price_table(grams_250_price@),
                    grams_500: price_table(grams_500_price@),
                    grams_1000: price_table(grams_1000_price@),
                    grams_2000: price_table(grams_2000_price@),
                },
            }),
    {
        proof {
            use_type_invariant(&*self);
        }
        self.assert_owner(caller)?;
        if char_count(region_code.as_str()) != 2 {
            return Err(StoreError::InvalidRegionCode);
        }
        let new_region = DeliveryRegion {
            grams_250: StoreMap::from_pairs(grams_250_price),
            grams_500: StoreMap::from_pairs(grams_500_price),
            grams_1000: StoreMap::from_pairs(grams_1000_price),
            grams_2000: StoreMap::from_pairs(grams_2000_price),
        };
        proof {
            law_step_valid(self@, StoreOp::InsertRegion { caller: caller@, code: region_code@, region: new_region@ });
        }
        let mut regions = StoreMap::new();
        std::mem::swap(&mut regions, &mut self.delivery_regions);
        regions.insert(region_code, new_region);
        self.delivery_regions = regions;
        Ok(())
    }

    /// Settles a pending order: it leaves the pending orders and, when
    /// `order_filled`, joins the fulfilled ones. An unknown id changes
    /// nothing. Only the owner may.
    pub fn confirm_order(&mut self, caller: &String, order_id: String, order_filled: bool) -> (r: Result<
        (),
        StoreError,
    >)
        ensures
            r == owner_check(old(self)@, caller@),
            r is Err ==> final(self)@ == old(self)@,
            r is Ok ==> final(self)@ == confirmed(old(self)@, order_id@, order_filled),
            valid(final(self)@),
            final(self)@ == step(old(self)@, StoreOp::ConfirmOrder { caller: caller@, id: order_id@, filled: order_filled }),
    {
        proof {
            use_type_invariant(&*self);
        }
        self.assert_owner(caller)?;
        proof {
            law_step_valid(self@, StoreOp::ConfirmOrder { caller: caller@, id: order_id@, filled: order_filled });
        }
        let mut pending = StoreMap::new();
        std::mem::swap(&mut pending, &mut self.pending_orders);
        if let Some(pending_record) = pending.remove(&order_id) {
            if order_filled {
                let mut fulfilled = StoreMap::new();
                std::mem::swap(&mut fulfilled, &mut self.fulfilled_orders);
                fulfilled.insert(order_id, pending_record);
                self.fulfilled_orders = fulfilled;
            }
        }
        self.pending_orders = pending;
        Ok(())
    }

    /// The stock, in the order in which items were added.
    pub fn view_store(&self) -> (r: Vec<(String, MarketplaceItem)>)
        ensures
            pairs_view(r@) == self@.stock,
    {
        self.marketplace_stock.to_vec()
    }

    /// The delivery rates of each region.
    pub fn view_delivery_rates(&self) -> (r: Vec<(String, DeliveryRegion)>)
        ensures
            pairs_view(r@) == self@.regions,
    {
        self.delivery_regions.to_vec()
    }

    /// Empties the stock. Only the owner may.
    pub fn reset_store(&mut self, caller: &String) -> (r: Result<(), StoreError>)
        ensures
            r == owner_check(old(self)@, caller@),
            r is Err ==> final(self)@ == old(self)@,
            r is Ok ==> final(self)@ == (ContractView { stock: Seq::empty(), ..old(self)@ }),
            valid(final(self)@),
            final(self)@ == step(old(self)@, StoreOp::ResetStore { caller: caller@ }),
    {
        proof {
            use_type_invariant(&*self);
        }
        self.assert_owner(caller)?;
        self.marketplace_stock = StoreMap::new();
        Ok(())
    }

    /// Removes every delivery region. Only the owner may.
    pub fn reset_regions(&mut self, caller: &String) -> (r: Result<(), StoreError>)
        ensures
            r == owner_check(old(self)@, caller@),
            r is Err ==> final(self)@ == old(self)@,
            r is Ok ==> final(self)@ == (ContractView { regions: Seq::empty(), ..old(self)@ }),
            valid(final(self)@),
            final(self)@ == step(old(self)@, StoreOp::ResetRegions { caller: caller@ }),
    {
        proof {
            use_type_invariant(&*self);
        }
        self.assert_owner(caller)?;
        self.delivery_regions = StoreMap::new();
        Ok(())
    }

    /// The pending orders.
    pub fn view_pending_orders(&self) -> (r: Vec<(String, PurchaseEvent)>)
        ensures
            pairs_view(r@) == self@.pending,
    {
        self.pending_orders.to_vec()
    }

    /// The fulfilled orders.
    pub fn view_fulfilled_orders(&self) -> (r: Vec<(String, PurchaseEvent)>)
        ensures
            pairs_view(r@) == self@.fulfilled,
    {
        self.fulfilled_orders.to_vec()
    }
}

} // verus!
