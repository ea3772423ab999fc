use contract::store_map::StoreMap;
use contract::{Contract, StoreError, DeliveryRegion, MarketplaceItem};

fn owner() -> String {
    "store.near".to_string()
}

fn price(x: f64) -> u64 {
    x.to_bits()
}

fn add_item(c: &mut Contract, id: &str) -> Result<(), StoreError> {
    c.insert_marketplace_item(
        &owner(),
        id.to_string(),
        format!("{} beans", id),
        vec!["fine".to_string(), "coarse".to_string()],
        vec![("250".to_string(), price(10.0)), ("500".to_string(), price(18.5))],
    )
}

fn add_region(c: &mut Contract, code: &str) -> Result<(), StoreError> {
    c.insert_delivery_regions(
        &owner(),
        code.to_string(),
        vec![("0".to_string(), price(1.0))],
        vec![("0".to_string(), price(2.0))],
        vec![("0".to_string(), price(3.0))],
        vec![("0".to_string(), price(4.0))],
    )
}

fn price_of(item: &MarketplaceItem, option: &str) -> Option<f64> {
    item.price_range.get(&option.to_string()).map(|b| f64::from_bits(*b))
}

#[test]
fn new_store_is_empty() {
    let c = Contract::new(owner());
    assert_eq!(c.owner_id(), owner());
    assert!(c.view_store().is_empty());
    assert!(c.view_delivery_rates().is_empty());
    assert!(c.view_pending_orders().is_empty());
    assert!(c.view_fulfilled_orders().is_empty());
    assert!(c.user_basket().is_none());
    assert_eq!(c.last_near_price(), Some(contract::ONE_NEAR));
}

#[test]
fn owner_adds_item() {
    let mut c = Contract::new(owner());
    assert_eq!(add_item(&mut c, "kenya"), Ok(()));
    let stock = c.view_store();
    assert_eq!(stock.len(), 1);
    assert_eq!(stock[0].0, "kenya");
    assert_eq!(stock[0].1.name, "kenya beans");
    assert_eq!(stock[0].1.grinds, vec!["fine".to_string(), "coarse".to_string()]);
    assert!(stock[0].1.availability);
    assert_eq!(price_of(&stock[0].1, "250"), Some(10.0));
    assert_eq!(price_of(&stock[0].1, "500"), Some(18.5));
    assert_eq!(price_of(&stock[0].1, "1000"), None);
}

#[test]
fn item_prices_later_pair_wins() {
    let mut c = Contract::new(owner());
    let r = c.insert_marketplace_item(
        &owner(),
        "peru".to_string(),
        "Peru".to_string(),
        vec![],
        vec![
            ("250".to_string(), price(1.0)),
            ("500".to_string(), price(2.0)),
            ("250".to_string(), price(3.0)),
        ],
    );
    assert_eq!(r, Ok(()));
    let stock = c.view_store();
    assert_eq!(stock[0].1.price_range.len(), 2);
    assert_eq!(price_of(&stock[0].1, "250"), Some(3.0));
    let (k, v) = stock[0].1.price_range.entry(0);
    assert_eq!(k, "250");
    assert_eq!(f64::from_bits(*v), 3.0);
}

#[test]
fn existing_item_is_not_replaced() {
    let mut c = Contract::new(owner());
    add_item(&mut c, "kenya").unwrap();
    let r = c.insert_marketplace_item(&owner(), "kenya".to_string(), "other".to_string(), vec![], vec![]);
    assert_eq!(r, Err(StoreError::ItemAlreadyExists));
    assert_eq!(c.view_store()[0].1.name, "kenya beans");
}

#[test]
fn non_owner_is_refused_everywhere() {
    let mut c = Contract::new(owner());
    add_item(&mut c, "kenya").unwrap();
    add_region(&mut c, "UK").unwrap();
    let eve = "eve.near".to_string();
    assert_eq!(c.assert_owner(&eve), Err(StoreError::NotOwner));
    assert_eq!(c.assert_owner(&owner()), Ok(()));
    assert_eq!(
        c.insert_marketplace_item(&eve, "x".to_string(), "x".to_string(), vec![], vec![]),
        Err(StoreError::NotOwner)
    );
    assert_eq!(
        c.insert_delivery_regions(&eve, "FR".to_string(), vec![], vec![], vec![], vec![]),
        Err(StoreError::NotOwner)
    );
    assert_eq!(c.confirm_order(&eve, "a_0".to_string(), true), Err(StoreError::NotOwner));
    assert_eq!(c.reset_store(&eve), Err(StoreError::NotOwner));
    assert_eq!(c.reset_regions(&eve), Err(StoreError::NotOwner));
    assert_eq!(c.view_store().len(), 1);
    assert_eq!(c.view_delivery_rates().len(), 1);
}

#[test]
fn region_code_must_have_two_chars() {
    let mut c = Contract::new(owner());
    assert_eq!(add_region(&mut c, "U"), Err(StoreError::InvalidRegionCode));
    assert_eq!(add_region(&mut c, "UKX"), Err(StoreError::InvalidRegionCode));
    assert_eq!(add_region(&mut c, "ÜK"), Ok(()));
    assert_eq!(c.view_delivery_rates().len(), 1);
}

#[test]
fn region_rates_are_replaced() {
    let mut c = Contract::new(owner());
    add_region(&mut c, "UK").unwrap();
    add_region(&mut c, "FR").unwrap();
    c.insert_delivery_regions(&owner(), "UK".to_string(), vec![], vec![], vec![], vec![("0".to_string(), price(9.0))])
        .unwrap();
    let regions = c.view_delivery_rates();
    assert_eq!(regions.len(), 2);
    assert_eq!(regions[0].0, "UK");
    let uk: &DeliveryRegion = &regions[0].1;
    assert_eq!(uk.grams_250.len(), 0);
    assert_eq!(uk.grams_2000.get(&"0".to_string()).map(|b| f64::from_bits(*b)), Some(9.0));
    assert_eq!(regions[1].0, "FR");
}

#[test]
fn resets_clear_tables() {
    let mut c = Contract::new(owner());
    add_item(&mut c, "kenya").unwrap();
    add_region(&mut c, "UK").unwrap();
    assert_eq!(c.reset_store(&owner()), Ok(()));
    assert!(c.view_store().is_empty());
    assert_eq!(c.view_delivery_rates().len(), 1);
    assert_eq!(c.reset_regions(&owner()), Ok(()));
    assert!(c.view_delivery_rates().is_empty());
}

#[test]
fn store_map_read_after_write_and_remove() {
    let mut m: StoreMap<u64> = StoreMap::new();
    m.insert("a".to_string(), 1);
    m.insert("b".to_string(), 2);
    m.insert("c".to_string(), 3);
    m.insert("a".to_string(), 4);
    assert_eq!(m.len(), 3);
    assert_eq!(m.get(&"a".to_string()), Some(&4));
    assert_eq!(m.remove(&"a".to_string()), Some(4));
    assert_eq!(m.get(&"a".to_string()), None);
    assert_eq!(m.remove(&"a".to_string()), None);
    // the last entry moved into the freed place
    let v = m.to_vec();
    assert_eq!(v, vec![("c".to_string(), 3), ("b".to_string(), 2)]);
    m.clear();
    assert_eq!(m.len(), 0);
}
