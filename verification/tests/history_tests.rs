use forma::history::{PatchHistory, PatchSnapshot, AUTO_CAPACITY};
use forma::text::decimal;

fn snap(ts: u64, label: Option<&str>) -> PatchSnapshot<u32> {
    PatchSnapshot { timestamp: ts, label: label.map(|s| s.to_string()), patch: 0 }
}

#[test]
fn ages_read_naturally() {
    let s = snap(1000, None);
    assert_eq!(s.age_str(1005), "just now");
    assert_eq!(s.age_str(1042), "42s ago");
    assert_eq!(s.age_str(1125), "2 min ago");
    assert_eq!(s.age_str(1000 + 7300), "2 h ago");
    assert_eq!(s.age_str(900), "just now");
    assert_eq!(s.age_str(1000 + 3599), "59 min ago");
}

#[test]
fn documented_age_examples() {
    let s = snap(0, None);
    assert_eq!(s.age_str(5), "just now");
    assert_eq!(s.age_str(120), "2 min ago");
    assert_eq!(s.age_str(3600), "1 h ago");
}

#[test]
fn manual_flag() {
    assert!(snap(0, Some("pin")).is_manual());
    assert!(!snap(0, None).is_manual());
}

#[test]
fn auto_snapshots_roll_but_pins_stay() {
    let mut h: PatchHistory<u32> = PatchHistory::default();
    h.push_manual_at(1000, "keeper".to_string(), 5);
    for i in 0..35u32 {
        h.push_auto_at(i, 10 + i as u64);
    }
    let autos: Vec<u32> = h.entries.iter().filter(|e| !e.is_manual()).map(|e| e.patch).collect();
    assert_eq!(autos.len(), AUTO_CAPACITY);
    // Newest first; the five oldest autos were evicted.
    assert_eq!(autos[0], 34);
    assert_eq!(autos[29], 5);
    let pins: Vec<&PatchSnapshot<u32>> = h.entries.iter().filter(|e| e.is_manual()).collect();
    assert_eq!(pins.len(), 1);
    assert_eq!(pins[0].patch, 1000);
    assert_eq!(pins[0].label.as_deref(), Some("keeper"));
    assert_eq!(h.entries.len(), 31);
    assert_eq!(h.entries[0].timestamp, 44);
}

#[test]
fn pins_never_count_against_capacity() {
    let mut h: PatchHistory<u32> = PatchHistory::default();
    for i in 0..40u32 {
        h.push_manual_at(i, format!("p{}", i), 0);
    }
    h.push_auto_at(99, 1);
    assert_eq!(h.entries.len(), 41);
    assert_eq!(h.entries[0].patch, 99);
    assert_eq!(h.entries[1].label.as_deref(), Some("p39"));
}

#[test]
fn rename_and_remove() {
    let mut h: PatchHistory<u32> = PatchHistory::default();
    h.push_auto_at(1, 1);
    h.push_auto_at(2, 2);
    h.rename(1, "first".to_string());
    assert_eq!(h.entries[1].label.as_deref(), Some("first"));
    assert_eq!(h.entries[1].patch, 1);
    assert!(!h.entries[0].is_manual());
    h.rename(9, "nothing".to_string());
    assert_eq!(h.entries.len(), 2);
    h.remove(0);
    assert_eq!(h.entries.len(), 1);
    assert_eq!(h.entries[0].patch, 1);
    h.remove(5);
    assert_eq!(h.entries.len(), 1);
}

#[test]
fn clock_stamped_pushes() {
    let mut h: PatchHistory<u32> = PatchHistory::default();
    h.push_auto(7);
    h.push_manual(8, "now".to_string());
    assert_eq!(h.entries.len(), 2);
    assert_eq!(h.entries[0].patch, 8);
    assert!(h.entries[0].is_manual());
    assert!(h.entries[0].timestamp > 1_600_000_000);
}

#[test]
fn decimal_rendering() {
    assert_eq!(decimal(0), "0");
    assert_eq!(decimal(7), "7");
    assert_eq!(decimal(10), "10");
    assert_eq!(decimal(1234567890), "1234567890");
    assert_eq!(decimal(u64::MAX), u64::MAX.to_string());
}
