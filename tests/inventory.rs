use rustserver::inventory::{
    InventoryItem, InventoryManager, InventoryManagerReport, InventoryReport, InventoryType, RETENTION_MILLIS,
    SECONDS_PER_REPORT,
};

fn item(slot: i64, name: &str, count: i64) -> InventoryItem {
    InventoryItem { slot, name: name.to_string(), count }
}

fn report(computer_id: i64, inventory_type: InventoryType, items: Vec<InventoryItem>) -> InventoryReport {
    InventoryReport {
        common_name: "Furnace array".to_string(),
        computer_id,
        inventory: items,
        peripheral_name: "minecraft:chest_0".to_string(),
        inventory_type,
    }
}

fn input() -> InventoryType {
    InventoryType::Input { destination: "smelter".to_string() }
}

fn rates(r: Option<InventoryManagerReport>) -> Vec<(String, i128, usize)> {
    match r {
        Some(InventoryManagerReport::Input(v)) | Some(InventoryManagerReport::Output(v)) => {
            v.into_iter().map(|x| (x.name, x.total, x.reports)).collect()
        }
        _ => panic!("expected a rate report"),
    }
}

fn counts(r: Option<InventoryManagerReport>) -> Vec<(String, i64)> {
    match r {
        Some(InventoryManagerReport::Storage(v)) => v.into_iter().map(|x| (x.name, x.count)).collect(),
        _ => panic!("expected a storage report"),
    }
}

#[test]
fn rate_report() {
    let mut m = InventoryManager::new();
    let t = 1_000_000u64;
    for k in 0..3u64 {
        m.ingest(t + k * 5_000, report(7, input(), vec![item(1, "iron", 4)]));
    }
    let r = m.get_report(t + 10_000, 7, 60_000);
    let rows = match r {
        Some(InventoryManagerReport::Input(v)) => v,
        _ => panic!("expected an input report"),
    };
    assert_eq!(rows.len(), 1);
    assert_eq!(rows[0].name, "iron");
    assert_eq!((rows[0].total, rows[0].reports), (12, 3));
    let per_second = rows[0].total as f64 / rows[0].reports as f64 / SECONDS_PER_REPORT as f64;
    assert!((per_second - 0.8).abs() < 1e-12);
}

#[test]
fn steady_count_gives_count_per_interval() {
    let mut m = InventoryManager::new();
    for k in 0..10u64 {
        m.ingest(k * 5_000, report(1, input(), vec![item(1, "coal", 3), item(2, "coal", 2)]));
    }
    let rows = rates(m.get_report(45_000, 1, 300_000));
    assert_eq!(rows, vec![("coal".to_string(), 50, 10)]);
}

#[test]
fn output_report_and_ordering() {
    let mut m = InventoryManager::new();
    let output = InventoryType::Output { source: "quarry".to_string() };
    m.ingest(0, report(2, output.clone(), vec![item(1, "dirt", 5), item(2, "cobble", 9), item(3, "andesite", 5)]));
    m.ingest(5_000, report(2, output, vec![item(1, "dirt", 5), item(2, "bread", 1)]));
    let rows = rates(m.get_report(5_000, 2, 60_000));
    assert_eq!(
        rows,
        vec![
            ("dirt".to_string(), 10, 2),
            ("cobble".to_string(), 9, 2),
            ("andesite".to_string(), 5, 2),
            ("bread".to_string(), 1, 2),
        ]
    );
}

#[test]
fn storage_report_uses_newest_snapshot() {
    let mut m = InventoryManager::new();
    m.ingest(0, report(3, InventoryType::Storage, vec![item(1, "gold", 64)]));
    m.ingest(5_000, report(3, InventoryType::Storage, vec![item(1, "gold", 10), item(2, "apple", 3), item(3, "gold", 5)]));
    let rows = counts(m.get_report(5_000, 3, 60_000));
    assert_eq!(rows, vec![("gold".to_string(), 15), ("apple".to_string(), 3)]);
}

#[test]
fn storage_ties_by_name() {
    let mut m = InventoryManager::new();
    m.ingest(0, report(3, InventoryType::Storage, vec![item(1, "b", 2), item(2, "ab", 2), item(3, "a", 2)]));
    let rows = counts(m.get_report(0, 3, 60_000));
    assert_eq!(rows, vec![("a".to_string(), 2), ("ab".to_string(), 2), ("b".to_string(), 2)]);
}

#[test]
fn change_of_kind_stops_the_scan() {
    let mut m = InventoryManager::new();
    m.ingest(0, report(4, input(), vec![item(1, "sand", 100)]));
    m.ingest(5_000, report(4, InventoryType::Input { destination: "kiln".to_string() }, vec![item(1, "sand", 2)]));
    m.ingest(10_000, report(4, InventoryType::Input { destination: "kiln".to_string() }, vec![item(1, "sand", 4)]));
    let rows = rates(m.get_report(10_000, 4, 60_000));
    assert_eq!(rows, vec![("sand".to_string(), 6, 2)]);
}

#[test]
fn other_computers_and_old_snapshots_are_left_out() {
    let mut m = InventoryManager::new();
    m.ingest(0, report(5, input(), vec![item(1, "old", 1)]));
    m.ingest(100_000, report(6, input(), vec![item(1, "other", 1)]));
    m.ingest(100_000, report(5, input(), vec![item(1, "new", 1)]));
    let rows = rates(m.get_report(100_000, 5, 60_000));
    assert_eq!(rows, vec![("new".to_string(), 1, 1)]);
    assert!(m.get_report(100_000, 99, 60_000).is_none());
    assert!(m.get_report(200_000, 5, 60_000).is_none());
}

#[test]
fn empty_aggregator_has_no_report() {
    let m = InventoryManager::new();
    assert!(m.get_report(0, 1, 60_000).is_none());
    assert_eq!(m.item_count(), 0);
}

#[test]
fn snapshots_older_than_thirty_minutes_are_dropped() {
    let mut m = InventoryManager::new();
    m.ingest(0, report(8, InventoryType::Storage, vec![item(1, "a", 1), item(2, "b", 1)]));
    m.ingest(1_000, report(8, InventoryType::Storage, vec![item(1, "c", 1)]));
    assert_eq!(m.item_count(), 3);
    m.ingest(RETENTION_MILLIS, report(8, InventoryType::Storage, vec![]));
    assert_eq!(m.item_count(), 1);
    m.ingest(RETENTION_MILLIS + 1_000, report(8, InventoryType::Storage, vec![item(1, "d", 1)]));
    assert_eq!(m.item_count(), 1);
    let rows = counts(m.get_report(RETENTION_MILLIS + 1_000, 8, u64::MAX));
    assert_eq!(rows, vec![("d".to_string(), 1)]);
}

#[test]
fn storage_counts_saturate() {
    let mut m = InventoryManager::new();
    m.ingest(0, report(9, InventoryType::Storage, vec![item(1, "x", i64::MAX), item(2, "x", i64::MAX)]));
    let rows = counts(m.get_report(0, 9, 0));
    assert_eq!(rows, vec![("x".to_string(), i64::MAX)]);
}

#[test]
fn inventory_type_equality() {
    assert!(input() == input());
    assert!(input() != InventoryType::Input { destination: "elsewhere".to_string() });
    assert!(InventoryType::Storage == InventoryType::Storage);
    assert!(InventoryType::Output { source: "smelter".to_string() } != input());
}
