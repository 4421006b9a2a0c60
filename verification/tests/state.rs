use backpack_grid_bot::decimal::Dec;
use backpack_grid_bot::domain::{OrderSide, Position};
use backpack_grid_bot::events::{RuntimeEvent, RuntimeEventKind};
use backpack_grid_bot::health::ServiceState;
use backpack_grid_bot::reconcile::{FillSource, SyntheticFill};
use backpack_grid_bot::state::InMemoryStateStore;

fn d(s: &str) -> Dec {
    let x: rust_decimal::Decimal = s.parse().unwrap();
    Dec { mantissa: x.mantissa(), scale: x.scale() }
}

#[test]
fn state_store_returns_copies() {
    let mut store = InMemoryStateStore::new();
    store.set_position(Position {
        symbol: "ETH_USDC_PERP".into(),
        size: d("-0.003"),
        entry_price: d("2255.45"),
        unrealized_pnl: d("0"),
    });
    let mut snapshot = store.get();
    snapshot.position.as_mut().unwrap().size = d("0");
    assert_eq!(store.get().position.unwrap().size, d("-0.003"));
}

#[test]
fn state_store_limits_recent_fills() {
    let mut store = InMemoryStateStore::new();
    for idx in 0..3 {
        store.push_fill(
            SyntheticFill {
                source: FillSource::ReconciliationFallback,
                symbol: "ETH_USDC_PERP".into(),
                side: OrderSide::Buy,
                qty: d("0.003"),
                price: Some(d("2252.48")),
                order_id: Some(idx.to_string()),
                client_order_id: Some(format!("grid-buy-{idx}")),
                fee: d("0"),
            },
            2,
        );
    }
    assert_eq!(store.get().recent_fills.len(), 2);
    assert_eq!(store.get().recent_fills[0].order_id.as_deref(), Some("2"));
}

#[test]
fn state_store_limits_recent_events() {
    let mut store = InMemoryStateStore::new();
    for _ in 0..3 {
        store.push_event(RuntimeEvent::service_state_changed(ServiceState::Active, "active"), 2);
    }
    assert_eq!(store.get().recent_events.len(), 2);
    assert_eq!(store.get().recent_events[0].kind, RuntimeEventKind::ServiceStateChanged);
}

#[test]
fn a_zero_limit_keeps_the_newest() {
    let mut store = InMemoryStateStore::new();
    store.push_event(RuntimeEvent::mismatch(1, None), 0);
    store.push_event(RuntimeEvent::mismatch(2, None), 0);
    let events = store.get().recent_events;
    assert_eq!(events.len(), 1);
    assert_eq!(events[0].matched_orders, Some(2));
}
