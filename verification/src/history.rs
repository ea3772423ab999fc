//! The store over time: each operation that changes the state as a step on
//! the store's view, and what holds after any sequence of them.

use vstd::prelude::*;
use crate::{ContractView, ItemView, RegionView, BasketView, EventView, PriceBits, valid, region_of,
    PURCHASE_EVENT};
use crate::store_map::{has_key, lookup, entries_insert, distinct_keys, law_lookup_after_insert,
    law_lookup_after_remove, lemma_insert_elements, lemma_remove_elements, lemma_lookup_element};
use crate::store_op::confirmed;
use crate::purchase::{purchase_check, order_id_for};

verus! {

/// An operation that may change the store, with what it is given.
pub enum StoreOp {
    /// `insert_marketplace_item`, with the item's price table.
    InsertItem {
        caller: Seq<char>,
        id: Seq<char>,
        name: Seq<char>,
        grinds: Seq<Seq<char>>,
        prices: Seq<(Seq<char>, PriceBits)>,
    },
    /// `insert_delivery_regions`.
    InsertRegion { caller: Seq<char>, code: Seq<char>, region: RegionView },
    /// `confirm_order`.
    ConfirmOrder { caller: Seq<char>, id: Seq<char>, filled: bool },
    /// `reset_store`.
    ResetStore { caller: Seq<char> },
    /// `reset_regions`.
    ResetRegions { caller: Seq<char> },
    /// `confirm_purchase`.
    Purchase { caller: Seq<char>, deposit: u128, message: Seq<char>, items: Seq<(Seq<char>, u16)> },
    /// `place_order`, with the plan's NEAR price, message and items.
    PlaceOrder {
        signer: Seq<char>,
        deposit: u128,
        required: u128,
        near_price: u128,
        message: Seq<char>,
        items: Seq<(Seq<char>, u16)>,
        cost: PriceBits,
    },
}

/// The store after one operation (a refused one changes nothing).
pub open spec fn step(v: ContractView, op: StoreOp) -> ContractView {
    match op {
        StoreOp::InsertItem { caller, id, name, grinds, prices } => if caller != v.owner || has_key(v.stock, id) {
            v
        } else {
            ContractView {
                stock: v.stock.push((id, ItemView { name, grinds, price_range: prices, availability: true })),
                ..v
            }
        },
        StoreOp::InsertRegion { caller, code, region } => if caller != v.owner || code.len() != 2 {
            v
        } else {
            ContractView { regions: entries_insert(v.regions, code, region), ..v }
        },
        StoreOp::ConfirmOrder { caller, id, filled } => if caller != v.owner {
            v
        } else {
            confirmed(v, id, filled)
        },
        StoreOp::ResetStore { caller } => if caller != v.owner {
            v
        } else {
            ContractView { stock: Seq::empty(), ..v }
        },
        StoreOp::ResetRegions { caller } => if caller != v.owner {
            v
        } else {
            ContractView { regions: Seq::empty(), ..v }
        },
        StoreOp::Purchase { caller, deposit, message, items } => if purchase_check(v, deposit, message, items.len()) is Err {
            v
        } else {
            ContractView {
                basket: Some(BasketView { account_id: caller, message, region_code: region_of(message), basket_items: items }),
                ..v
            }
        },
        StoreOp::PlaceOrder { signer, deposit, required, near_price, message, items, cost } => if deposit < required {
            v
        } else {
            let id = order_id_for(signer, v.pending.len() + v.fulfilled.len());
            ContractView {
                near_price: Some(near_price),
                pending: entries_insert(v.pending, id, EventView {
                    order_id: id,
                    account_id: signer,
                    event: PURCHASE_EVENT@,
                    message,
                    items,
                    checkout_cost: cost,
                }),
                ..v
            }
        },
    }
}

/// The store after each operation of `ops` in turn.
pub open spec fn run(v: ContractView, ops: Seq<StoreOp>) -> ContractView
    decreases ops.len(),
{
    if ops.len() == 0 {
        v
    } else {
        step(run(v, ops.drop_last()), ops.last())
    }
}

/// Every operation keeps the store valid: no table holds a key twice, every
/// region code is two characters long, every stocked item is available, and
/// every order is kept under its own id as a confirmed purchase.
pub proof fn law_step_valid(v: ContractView, op: StoreOp)
    requires
        valid(v),
    ensures
        valid(step(v, op)),
{
    let w = step(v, op);
    match op {
        StoreOp::InsertItem { caller, id, name, grinds, prices } => {
            if !(caller != v.owner || has_key(v.stock, id)) {
                let item = ItemView { name, grinds, price_range: prices, availability: true };
                law_lookup_after_insert(v.stock, id, item, id);
                assert(entries_insert(v.stock, id, item) == v.stock.push((id, item)));
                assert forall|i: int| 0 <= i < w.stock.len() implies (#[trigger] w.stock[i]).1.availability by {
                    if i < v.stock.len() {
                        assert(w.stock[i] == v.stock[i]);
                    }
                }
            }
        },
        StoreOp::InsertRegion { caller, code, region } => {
            if !(caller != v.owner || code.len() != 2) {
                law_lookup_after_insert(v.regions, code, region, code);
                lemma_insert_elements(v.regions, code, region);
                assert forall|i: int| 0 <= i < w.regions.len() implies (#[trigger] w.regions[i]).0.len() == 2 by {
                    if w.regions[i] != (code, region) {
                        let j = choose|j: int| 0 <= j < v.regions.len() && v.regions[j] == w.regions[i];
                    }
                }
            }
        },
        StoreOp::ConfirmOrder { caller, id, filled } => {
            if caller == v.owner {
                law_lookup_after_remove(v.pending, id, id);
                lemma_remove_elements(v.pending, id);
                assert forall|i: int| 0 <= i < w.pending.len() implies (#[trigger] w.pending[i]).1.order_id
                    == w.pending[i].0 && w.pending[i].1.event == PURCHASE_EVENT@ by {
                    let j = choose|j: int| 0 <= j < v.pending.len() && v.pending[j] == w.pending[i];
                }
                if filled && has_key(v.pending, id) {
                    let e = lookup(v.pending, id).unwrap();
                    lemma_lookup_element(v.pending, id);
                    let j0 = choose|j: int| 0 <= j < v.pending.len() && v.pending[j] == (id, e);
                    assert(v.pending[j0] == (id, e));
                    law_lookup_after_insert(v.fulfilled, id, e, id);
                    lemma_insert_elements(v.fulfilled, id, e);
                    assert forall|i: int| 0 <= i < w.fulfilled.len() implies (#[trigger] w.fulfilled[i]).1.order_id
                        == w.fulfilled[i].0 && w.fulfilled[i].1.event == PURCHASE_EVENT@ by {
                        if w.fulfilled[i] != (id, e) {
                            let j = choose|j: int| 0 <= j < v.fulfilled.len() && v.fulfilled[j] == w.fulfilled[i];
                        }
                    }
                }
            }
        },
        StoreOp::ResetStore { caller } => {},
        StoreOp::ResetRegions { caller } => {},
        StoreOp::Purchase { caller, deposit, message, items } => {},
        StoreOp::PlaceOrder { signer, deposit, required, near_price, message, items, cost } => {
            if deposit >= required {
                let id = order_id_for(signer, v.pending.len() + v.fulfilled.len());
                let e = EventView {
                    order_id: id,
                    account_id: signer,
                    event: PURCHASE_EVENT@,
                    message,
                    items,
                    checkout_cost: cost,
                };
                law_lookup_after_insert(v.pending, id, e, id);
                lemma_insert_elements(v.pending, id, e);
                assert forall|i: int| 0 <= i < w.pending.len() implies (#[trigger] w.pending[i]).1.order_id
                    == w.pending[i].0 && w.pending[i].1.event == PURCHASE_EVENT@ by {
                    if w.pending[i] != (id, e) {
                        let j = choose|j: int| 0 <= j < v.pending.len() && v.pending[j] == w.pending[i];
                    }
                }
            }
        },
    }
}

/// Any sequence of operations keeps the store valid, and its owner.
pub proof fn law_run_valid(v: ContractView, ops: Seq<StoreOp>)
    requires
        valid(v),
    ensures
        valid(run(v, ops)),
        run(v, ops).owner == v.owner,
    decreases ops.len(),
{
    if ops.len() > 0 {
        law_run_valid(v, ops.drop_last());
        law_step_valid(run(v, ops.drop_last()), ops.last());
    }
}

/// `op`, made by `owner`, resets the regions or sets the rates of `code`.
pub open spec fn touches_region(op: StoreOp, code: Seq<char>, owner: Seq<char>) -> bool {
    ||| (op matches StoreOp::ResetRegions { caller } && caller == owner)
    ||| (op matches StoreOp::InsertRegion { caller, code: c, .. } && caller == owner && c == code)
}

/// `op`, made by `owner`, confirms the order `id` as filled.
pub open spec fn touches_order(op: StoreOp, id: Seq<char>, owner: Seq<char>) -> bool {
    op matches StoreOp::ConfirmOrder { caller, id: i, filled } && caller == owner && i == id && filled
}

/// A table with distinct keys lists a key once, with the value a read gives.
pub proof fn law_lookup_unique<V>(s: Seq<(Seq<char>, V)>, k: Seq<char>, v: V)
    requires
        distinct_keys(s),
        lookup(s, k) == Some(v),
    ensures
        forall|i: int| 0 <= i < s.len() && #[trigger] s[i].0 == k ==> s[i].1 == v,
{
    let j = choose|j: int| 0 <= j < s.len() && #[trigger] s[j].0 == k;
    assert(s[j].0 == k);
}

/// Reading a region back: after the owner sets the rates of `code`, every
/// later sequence of operations in which the owner neither resets the
/// regions nor sets `code` again (calls refused for anyone else count for
/// nothing) leaves the store listing `code` once, with those rates.
pub proof fn law_region_read_after_write(v: ContractView, code: Seq<char>, region: RegionView, ops: Seq<StoreOp>)
    requires
        valid(v),
        code.len() == 2,
        forall|i: int| 0 <= i < ops.len() ==> !touches_region(#[trigger] ops[i], code, v.owner),
    ensures
        lookup(run(step(v, StoreOp::InsertRegion { caller: v.owner, code, region }), ops).regions, code)
            == Some(region),
        forall|i: int| 0 <= i < run(step(v, StoreOp::InsertRegion { caller: v.owner, code, region }), ops).regions.len()
            && #[trigger] run(step(v, StoreOp::InsertRegion { caller: v.owner, code, region }), ops).regions[i].0 == code
            ==> run(step(v, StoreOp::InsertRegion { caller: v.owner, code, region }), ops).regions[i].1 == region,
    decreases ops.len(),
{
    let w = step(v, StoreOp::InsertRegion { caller: v.owner, code, region });
    law_step_valid(v, StoreOp::InsertRegion { caller: v.owner, code, region });
    if ops.len() == 0 {
        law_lookup_after_insert(v.regions, code, region, code);
    } else {
        let pre = ops.drop_last();
        assert forall|i: int| 0 <= i < pre.len() implies !touches_region(#[trigger] pre[i], code, v.owner) by {
            assert(pre[i] == ops[i]);
        }
        law_region_read_after_write(v, code, region, pre);
        let u = run(w, pre);
        law_run_valid(w, pre);
        let op = ops.last();
        assert(!touches_region(ops[ops.len() - 1], code, v.owner));
        if let StoreOp::InsertRegion { caller, code: c, region: r } = op {
            if !(caller != u.owner || c.len() != 2) {
                law_lookup_after_insert(u.regions, c, r, code);
            }
        }
        law_step_valid(u, op);
    }
    law_run_valid(w, ops);
    law_lookup_unique(run(w, ops).regions, code, region);
}

/// Reading a fulfilled order back: after the owner confirms the pending
/// order `id` as filled, every later sequence of operations in which the
/// owner does not confirm `id` as filled again (calls refused for anyone
/// else count for nothing) leaves the fulfilled orders listing `id` once,
/// with the record it had while pending.
pub proof fn law_fulfilled_read_after_confirm(v: ContractView, id: Seq<char>, ops: Seq<StoreOp>)
    requires
        valid(v),
        has_key(v.pending, id),
        forall|i: int| 0 <= i < ops.len() ==> !touches_order(#[trigger] ops[i], id, v.owner),
    ensures
        lookup(run(step(v, StoreOp::ConfirmOrder { caller: v.owner, id, filled: true }), ops).fulfilled, id)
            == lookup(v.pending, id),
        forall|i: int| 0 <= i < run(step(v, StoreOp::ConfirmOrder { caller: v.owner, id, filled: true }), ops).fulfilled.len()
            && #[trigger] run(step(v, StoreOp::ConfirmOrder { caller: v.owner, id, filled: true }), ops).fulfilled[i].0 == id
            ==> Some(run(step(v, StoreOp::ConfirmOrder { caller: v.owner, id, filled: true }), ops).fulfilled[i].1)
            == lookup(v.pending, id),
    decreases ops.len(),
{
    let w = step(v, StoreOp::ConfirmOrder { caller: v.owner, id, filled: true });
    law_step_valid(v, StoreOp::ConfirmOrder { caller: v.owner, id, filled: true });
    let e = lookup(v.pending, id).unwrap();
    if ops.len() == 0 {
        law_lookup_after_insert(v.fulfilled, id, e, id);
    } else {
        let pre = ops.drop_last();
        assert forall|i: int| 0 <= i < pre.len() implies !touches_order(#[trigger] pre[i], id, v.owner) by {
            assert(pre[i] == ops[i]);
        }
        law_fulfilled_read_after_confirm(v, id, pre);
        let u = run(w, pre);
        law_run_valid(w, pre);
        let op = ops.last();
        assert(!touches_order(ops[ops.len() - 1], id, v.owner));
        if let StoreOp::ConfirmOrder { caller, id: j, filled } = op {
            if caller == u.owner && filled && has_key(u.pending, j) {
                law_lookup_after_insert(u.fulfilled, j, lookup(u.pending, j).unwrap(), id);
            }
        }
    }
    law_run_valid(w, ops);
    law_lookup_unique(run(w, ops).fulfilled, id, e);
}

} // verus!
