use contract::models::{Asset, AssetEma, Price, Report};
use contract::purchase::{CheckoutError, CheckoutPlan, PromiseFailure, RefundAction};
use contract::{Contract, StoreError, MINIMUM_ORDER, ONE_NEAR};

fn owner() -> String {
    "store.near".to_string()
}

fn buyer() -> String {
    "buyer.near".to_string()
}

fn bits(x: f64) -> u64 {
    x.to_bits()
}

fn band(x: f64) -> Vec<(String, u64)> {
    vec![("0".to_string(), bits(x))]
}

fn store() -> Contract {
    let mut c = Contract::new(owner());
    c.insert_marketplace_item(
        &owner(),
        "kenya".to_string(),
        "Kenya AA".to_string(),
        vec!["fine".to_string(), "coarse".to_string()],
        vec![("250".to_string(), bits(10.0)), ("500".to_string(), bits(18.5))],
    )
    .unwrap();
    c.insert_delivery_regions(&owner(), "UK".to_string(), band(1.0), band(2.0), band(3.0), band(4.0)).unwrap();
    c
}

fn answer(multiplier: u128) -> Result<Option<Asset>, PromiseFailure> {
    Ok(Some(Asset {
        reports: vec![Report {
            oracle_id: "oracle.near".to_string(),
            timestamp: 1,
            price: Price { multiplier: 7, decimals: 8 },
        }],
        emas: vec![
            AssetEma { period_sec: 3600, timestamp: 2, price: Some(Price { multiplier, decimals: 8 }) },
            AssetEma { period_sec: 60, timestamp: 2, price: None },
        ],
    }))
}

fn basket(items: &[(&str, u16)]) -> Vec<(String, u16)> {
    items.iter().map(|(k, n)| (k.to_string(), *n)).collect()
}

fn start(c: &mut Contract, items: &[(&str, u16)]) {
    c.confirm_purchase(&buyer(), ONE_NEAR, "xUyyK".to_string(), basket(items)).unwrap();
}

#[test]
fn purchase_below_minimum_is_refused() {
    let mut c = store();
    let r = c.confirm_purchase(&buyer(), MINIMUM_ORDER - 1, "xUyyK".to_string(), basket(&[("kenya_250_fine", 1)]));
    assert!(matches!(r, Err(StoreError::BelowMinimumOrder)));
    assert!(c.user_basket().is_none());
}

#[test]
fn empty_basket_is_refused() {
    let mut c = store();
    let r = c.confirm_purchase(&buyer(), ONE_NEAR, "xUyyK".to_string(), vec![]);
    assert!(matches!(r, Err(StoreError::EmptyBasket)));
}

#[test]
fn unknown_region_is_refused() {
    let mut c = store();
    let r = c.confirm_purchase(&buyer(), ONE_NEAR, "xFyyR".to_string(), basket(&[("kenya_250_fine", 1)]));
    assert!(matches!(r, Err(StoreError::UnsupportedRegion)));
    assert!(c.user_basket().is_none());
}

#[test]
fn short_message_is_refused_for_its_region() {
    let mut c = store();
    let r = c.confirm_purchase(&buyer(), ONE_NEAR, "U".to_string(), basket(&[("kenya_250_fine", 1)]));
    assert!(matches!(r, Err(StoreError::UnsupportedRegion)));
}

#[test]
fn accepted_purchase_keeps_basket_and_asks_oracle() {
    let mut c = store();
    let q = c
        .confirm_purchase(&buyer(), 2 * ONE_NEAR, "xUyyK".to_string(), basket(&[("kenya_250_fine", 2)]))
        .unwrap();
    assert_eq!(q.oracle, "priceoracle.near");
    assert_eq!(q.asset_id, "wrap.near");
    assert_eq!(q.deposit, 2 * ONE_NEAR);
    let b = c.user_basket().unwrap();
    assert_eq!(b.account_id, buyer());
    assert_eq!(b.message, "xUyyK");
    assert_eq!(b.region_code, "UK");
    assert_eq!(b.basket_items, basket(&[("kenya_250_fine", 2)]));
}

#[test]
fn region_check_takes_second_and_last() {
    assert_eq!(Contract::region_check(&"xUyyK".to_string()), "UK");
    assert_eq!(Contract::region_check(&"ab".to_string()), "bb");
    assert_eq!(Contract::region_check(&"a".to_string()), "");
    assert_eq!(Contract::region_check(&"".to_string()), "");
    assert_eq!(Contract::region_check(&"éÜxK".to_string()), "ÜK");
}

#[test]
fn oracle_failures() {
    let mut c = store();
    start(&mut c, &[("kenya_250_fine", 1)]);
    assert!(matches!(c.callback_get_price_data(Err(PromiseFailure::Failed)), Err(CheckoutError::OracleFailed)));
    assert!(matches!(c.callback_get_price_data(Ok(None)), Err(CheckoutError::AssetMissing)));
    let no_ema = Ok(Some(Asset { reports: vec![], emas: vec![] }));
    assert!(matches!(c.callback_get_price_data(no_ema), Err(CheckoutError::NoEma)));
    let no_price =
        Ok(Some(Asset { reports: vec![], emas: vec![AssetEma { period_sec: 1, timestamp: 1, price: None }] }));
    assert!(matches!(c.callback_get_price_data(no_price), Err(CheckoutError::EmaWithoutPrice)));
}

#[test]
fn checkout_without_basket() {
    let c = store();
    assert!(matches!(c.callback_get_price_data(answer(500_000_000)), Err(CheckoutError::NoBasket)));
}

fn plan_of(items: &[(&str, u16)]) -> Result<CheckoutPlan, CheckoutError> {
    let mut c = store();
    start(&mut c, items);
    c.callback_get_price_data(answer(500_000_000))
}

#[test]
fn checkout_plan_lines_items_and_delivery() {
    let p = plan_of(&[("kenya_250_fine", 2), ("kenya_500_coarse", 1), ("kenya_250_espresso", 3)]).unwrap();
    assert_eq!(p.near_price, 500_000_000);
    assert_eq!(p.message, "xUyyK");
    assert_eq!(p.lines.len(), 2);
    assert_eq!(p.lines[0].key, "kenya_250_fine");
    assert_eq!(p.lines[0].count, 2);
    assert_eq!(f64::from_bits(p.lines[0].price), 10.0);
    assert_eq!(p.lines[1].key, "kenya_500_coarse");
    assert_eq!(f64::from_bits(p.lines[1].price), 18.5);
    assert_eq!(p.items, basket(&[("kenya_250_fine", 2), ("kenya_500_coarse", 1)]));
    // 250 + 500 + 250 grams: the grind that is not offered still weighs
    assert_eq!(p.delivery.len(), 1);
    assert_eq!(p.delivery[0].weight, 1000);
    assert_eq!(p.delivery[0].parcels, 1);
    assert_eq!(f64::from_bits(p.delivery[0].rate), 3.0);
}

#[test]
fn delivery_parcels_carry_the_weight() {
    let p = plan_of(&[("kenya_250_fine", 1), ("kenya_500_fine", 1), ("kenya_+4000_fine", 1)]);
    // "+4000" is a weight, but the item has no price for that option
    assert!(matches!(p, Err(CheckoutError::InvalidOption)));
    let mut c = store();
    c.insert_marketplace_item(&owner(), "bulk".to_string(), "Bulk".to_string(), vec!["fine".to_string()], vec![
        ("4500".to_string(), bits(50.0)),
        ("1250".to_string(), bits(20.0)),
    ])
    .unwrap();
    start(&mut c, &[("bulk_4500_fine", 1), ("bulk_1250_fine", 1)]);
    let p = c.callback_get_price_data(answer(1)).unwrap();
    let parcels: Vec<(u64, u128, f64)> =
        p.delivery.iter().map(|d| (d.weight, d.parcels, f64::from_bits(d.rate))).collect();
    assert_eq!(parcels, vec![(2000, 2, 4.0), (1000, 1, 3.0), (500, 1, 2.0), (250, 1, 1.0)]);
    let carried: u128 = p.delivery.iter().map(|d| d.weight as u128 * d.parcels).sum();
    assert_eq!(carried, 5750);
}

#[test]
fn undeliverable_weight() {
    let mut c = store();
    c.insert_marketplace_item(&owner(), "sample".to_string(), "Sample".to_string(), vec!["fine".to_string()], vec![
        ("100".to_string(), bits(1.0)),
    ])
    .unwrap();
    start(&mut c, &[("sample_100_fine", 1)]);
    assert!(matches!(c.callback_get_price_data(answer(1)), Err(CheckoutError::UndeliverableWeight)));
}

#[test]
fn duplicate_keys_keep_last_count() {
    let p = plan_of(&[("kenya_250_fine", 2), ("kenya_500_fine", 1), ("kenya_250_fine", 5)]).unwrap();
    assert_eq!(p.lines.len(), 3);
    assert_eq!(p.items, basket(&[("kenya_250_fine", 5), ("kenya_500_fine", 1)]));
    // 250 + 500 + 250 grams
    assert_eq!(p.delivery[0].weight, 1000);
}

#[test]
fn basket_key_errors() {
    assert!(matches!(plan_of(&[("kenya_250", 1)]), Err(CheckoutError::MalformedItemKey)));
    assert!(matches!(plan_of(&[("kenya_abc_fine", 1)]), Err(CheckoutError::InvalidGrams)));
    assert!(matches!(plan_of(&[("kenya_250.0_fine", 1)]), Err(CheckoutError::InvalidGrams)));
    assert!(matches!(plan_of(&[("peru_250_fine", 1)]), Err(CheckoutError::UnknownItem)));
    assert!(matches!(plan_of(&[("kenya_1000_fine", 1)]), Err(CheckoutError::InvalidOption)));
    // the first failing entry decides
    assert!(matches!(plan_of(&[("peru_250_fine", 1), ("kenya_250", 1)]), Err(CheckoutError::UnknownItem)));
    // extra parts are ignored
    assert!(plan_of(&[("kenya_250_fine_extra", 1)]).is_ok());
}

#[test]
fn region_and_rate_errors() {
    let mut c = store();
    start(&mut c, &[("kenya_250_fine", 1)]);
    c.reset_regions(&owner()).unwrap();
    assert!(matches!(c.callback_get_price_data(answer(1)), Err(CheckoutError::RegionMissing)));
    c.insert_delivery_regions(&owner(), "UK".to_string(), vec![], band(2.0), band(3.0), band(4.0)).unwrap();
    assert!(matches!(c.callback_get_price_data(answer(1)), Err(CheckoutError::RateMissing)));
    // a tier that the parcel does not use may lack its rate
    c.insert_delivery_regions(&owner(), "UK".to_string(), band(1.0), vec![], vec![], vec![]).unwrap();
    assert!(c.callback_get_price_data(answer(1)).is_ok());
}

#[test]
fn booking_orders() {
    let mut c = store();
    start(&mut c, &[("kenya_250_fine", 2)]);
    let plan = c.callback_get_price_data(answer(500_000_000)).unwrap();
    let r = c.place_order(plan, ONE_NEAR, ONE_NEAR + 1, bits(45.0), buyer());
    assert!(matches!(r, Err(CheckoutError::InsufficientDeposit)));
    assert!(c.view_pending_orders().is_empty());
    assert_eq!(c.last_near_price(), Some(ONE_NEAR));

    let plan = c.callback_get_price_data(answer(500_000_000)).unwrap();
    let id = c.place_order(plan, ONE_NEAR, ONE_NEAR, bits(45.0), buyer()).unwrap();
    assert_eq!(id, "buyer.near_0");
    assert_eq!(c.last_near_price(), Some(500_000_000));
    let pending = c.view_pending_orders();
    assert_eq!(pending.len(), 1);
    assert_eq!(pending[0].0, "buyer.near_0");
    let e = &pending[0].1;
    assert_eq!(e.order_id, "buyer.near_0");
    assert_eq!(e.account_id, buyer());
    assert_eq!(e.event, "confirmed_purchase");
    assert_eq!(e.message, "xUyyK");
    assert_eq!(e.items, basket(&[("kenya_250_fine", 2)]));
    assert_eq!(f64::from_bits(e.checkout_cost), 45.0);
    // the basket stays for the next checkout
    assert!(c.user_basket().is_some());

    let plan = c.callback_get_price_data(answer(500_000_000)).unwrap();
    assert_eq!(c.place_order(plan, ONE_NEAR, 0, bits(1.0), buyer()).unwrap(), "buyer.near_1");
}

#[test]
fn confirming_orders_moves_records() {
    let mut c = store();
    start(&mut c, &[("kenya_250_fine", 2)]);
    for _ in 0..3 {
        let plan = c.callback_get_price_data(answer(1)).unwrap();
        c.place_order(plan, 1, 0, bits(1.0), buyer()).unwrap();
    }
    assert_eq!(c.confirm_order(&owner(), "buyer.near_0".to_string(), true), Ok(()));
    let pending: Vec<String> = c.view_pending_orders().into_iter().map(|(k, _)| k).collect();
    assert_eq!(pending, vec!["buyer.near_2".to_string(), "buyer.near_1".to_string()]);
    let fulfilled = c.view_fulfilled_orders();
    assert_eq!(fulfilled.len(), 1);
    assert_eq!(fulfilled[0].0, "buyer.near_0");
    assert_eq!(fulfilled[0].1.order_id, "buyer.near_0");

    // not filled: dropped from pending only
    assert_eq!(c.confirm_order(&owner(), "buyer.near_1".to_string(), false), Ok(()));
    assert_eq!(c.view_pending_orders().len(), 1);
    assert_eq!(c.view_fulfilled_orders().len(), 1);

    // unknown ids change nothing
    assert_eq!(c.confirm_order(&owner(), "nobody_9".to_string(), true), Ok(()));
    assert_eq!(c.view_pending_orders().len(), 1);
    assert_eq!(c.view_fulfilled_orders().len(), 1);

    // the next number counts all orders left: 1 pending + 1 fulfilled
    let plan = c.callback_get_price_data(answer(1)).unwrap();
    let id = c.place_order(plan, 1, 0, bits(1.0), buyer()).unwrap();
    assert_eq!(id, "buyer.near_2");
    // which replaced the pending order of that id
    assert_eq!(c.view_pending_orders().len(), 1);
}

#[test]
fn refunds() {
    let c = store();
    let signer = "signer.near".to_string();
    match c.refund_promise(Ok(true), &signer, 5) {
        RefundAction::Transfer { receiver, amount } => {
            assert_eq!(receiver, owner());
            assert_eq!(amount, 5);
        },
        RefundAction::Keep => panic!("expected a transfer"),
    }
    assert!(matches!(c.refund_promise(Ok(false), &signer, 5), RefundAction::Keep));
    match c.refund_promise(Err(PromiseFailure::Failed), &signer, 7) {
        RefundAction::Transfer { receiver, amount } => {
            assert_eq!(receiver, signer);
            assert_eq!(amount, 7);
        },
        RefundAction::Keep => panic!("expected a transfer"),
    }
}

#[test]
fn parts_round_trip() {
    let mut c = store();
    start(&mut c, &[("kenya_250_fine", 2)]);
    let plan = c.callback_get_price_data(answer(1)).unwrap();
    c.place_order(plan, 1, 0, bits(1.0), buyer()).unwrap();
    let d = Contract::from_parts(
        c.owner_id(),
        c.view_store(),
        c.view_delivery_rates(),
        c.user_basket(),
        c.last_near_price(),
        c.view_pending_orders(),
        c.view_fulfilled_orders(),
    )
    .unwrap();
    assert_eq!(d.owner_id(), c.owner_id());
    assert_eq!(d.view_store().len(), 1);
    assert_eq!(d.view_store()[0].0, "kenya");
    assert_eq!(d.view_delivery_rates()[0].0, "UK");
    assert_eq!(d.view_pending_orders()[0].0, "buyer.near_0");
    assert_eq!(d.last_near_price(), Some(1));
    assert_eq!(d.user_basket().unwrap().region_code, "UK");
    let bad = Contract::from_parts(
        owner(),
        vec![],
        c.view_delivery_rates().into_iter().map(|(_, r)| ("UKX".to_string(), r)).collect(),
        None,
        None,
        vec![],
        vec![],
    );
    assert!(bad.is_none());
}

#[test]
fn accepted_purchase_checks_out_past_basket_and_region() {
    let mut c = store();
    start(&mut c, &[("peru_250_fine", 1)]);
    let r = c.callback_get_price_data(Err(PromiseFailure::NotReady));
    assert!(matches!(r, Err(CheckoutError::OracleFailed)));
    let r = c.callback_get_price_data(answer(1));
    assert!(matches!(r, Err(CheckoutError::UnknownItem)));
}

#[test]
fn parts_must_hold_available_items_and_keyed_orders() {
    let mut c = store();
    start(&mut c, &[("kenya_250_fine", 2)]);
    let plan = c.callback_get_price_data(answer(1)).unwrap();
    c.place_order(plan, 1, 0, bits(1.0), buyer()).unwrap();
    let parts = |c: &Contract| {
        (c.view_store(), c.view_delivery_rates(), c.view_pending_orders(), c.view_fulfilled_orders())
    };
    let (mut stock, regions, pending, fulfilled) = parts(&c);
    stock[0].1.availability = false;
    assert!(Contract::from_parts(owner(), stock, regions, None, None, pending, fulfilled).is_none());
    let (stock, regions, mut pending, fulfilled) = parts(&c);
    pending[0].0 = "other_7".to_string();
    assert!(Contract::from_parts(owner(), stock, regions, None, None, pending, fulfilled).is_none());
    let (stock, regions, mut pending, fulfilled) = parts(&c);
    pending[0].1.event = "refunded".to_string();
    assert!(Contract::from_parts(owner(), stock, regions, None, None, pending, fulfilled).is_none());
    let (stock, regions, pending, fulfilled) = parts(&c);
    assert!(Contract::from_parts(owner(), stock, regions, None, None, pending, fulfilled).is_some());
}

#[test]
fn region_read_back_across_other_operations() {
    let mut c = store();
    c.insert_delivery_regions(&owner(), "FR".to_string(), band(5.0), vec![], vec![], vec![]).unwrap();
    start(&mut c, &[("kenya_250_fine", 1)]);
    let plan = c.callback_get_price_data(answer(1)).unwrap();
    c.place_order(plan, 1, 0, bits(1.0), buyer()).unwrap();
    c.insert_delivery_regions(&owner(), "DE".to_string(), vec![], vec![], vec![], vec![]).unwrap();
    c.reset_store(&owner()).unwrap();
    c.confirm_order(&owner(), "buyer.near_0".to_string(), true).unwrap();
    let regions = c.view_delivery_rates();
    let fr: Vec<_> = regions.iter().filter(|(k, _)| k == "FR").collect();
    assert_eq!(fr.len(), 1);
    assert_eq!(fr[0].1.grams_250.get(&"0".to_string()).map(|b| f64::from_bits(*b)), Some(5.0));
    assert_eq!(fr[0].1.grams_500.len(), 0);
}

#[test]
fn fulfilled_read_back_across_other_operations() {
    let mut c = store();
    start(&mut c, &[("kenya_250_fine", 3)]);
    let plan = c.callback_get_price_data(answer(1)).unwrap();
    c.place_order(plan, 1, 0, bits(7.5), buyer()).unwrap();
    c.confirm_order(&owner(), "buyer.near_0".to_string(), true).unwrap();
    for _ in 0..2 {
        let plan = c.callback_get_price_data(answer(1)).unwrap();
        c.place_order(plan, 1, 0, bits(1.0), buyer()).unwrap();
    }
    c.confirm_order(&owner(), "buyer.near_2".to_string(), true).unwrap();
    c.reset_regions(&owner()).unwrap();
    let fulfilled = c.view_fulfilled_orders();
    let hits: Vec<_> = fulfilled.iter().filter(|(k, _)| k == "buyer.near_0").collect();
    assert_eq!(hits.len(), 1);
    assert_eq!(hits[0].1.order_id, "buyer.near_0");
    assert_eq!(hits[0].1.event, "confirmed_purchase");
    assert_eq!(hits[0].1.items, basket(&[("kenya_250_fine", 3)]));
    assert_eq!(f64::from_bits(hits[0].1.checkout_cost), 7.5);
    // every order sits under its own id
    for (k, e) in c.view_pending_orders().iter().chain(fulfilled.iter()) {
        assert_eq!(k, &e.order_id);
    }
    // every stocked item is available
    assert!(c.view_store().iter().all(|(_, i)| i.availability));
}

#[test]
fn refused_calls_leave_read_back_intact() {
    let mut c = store();
    let eve = "eve.near".to_string();
    assert_eq!(c.reset_regions(&eve), Err(StoreError::NotOwner));
    assert_eq!(
        c.insert_delivery_regions(&eve, "UK".to_string(), vec![], vec![], vec![], vec![]),
        Err(StoreError::NotOwner)
    );
    let regions = c.view_delivery_rates();
    assert_eq!(regions.len(), 1);
    assert_eq!(regions[0].1.grams_250.get(&"0".to_string()).map(|b| f64::from_bits(*b)), Some(1.0));

    start(&mut c, &[("kenya_250_fine", 1)]);
    let plan = c.callback_get_price_data(answer(1)).unwrap();
    c.place_order(plan, 1, 0, bits(2.0), buyer()).unwrap();
    c.confirm_order(&owner(), "buyer.near_0".to_string(), true).unwrap();
    assert_eq!(c.confirm_order(&eve, "buyer.near_0".to_string(), false), Err(StoreError::NotOwner));
    c.confirm_order(&owner(), "buyer.near_0".to_string(), false).unwrap();
    let fulfilled = c.view_fulfilled_orders();
    assert_eq!(fulfilled.len(), 1);
    assert_eq!(fulfilled[0].0, "buyer.near_0");
}
