use bfree::layout::{bar_cells, bar_layout, percent, Category, ColorRole};
use bfree::snapshot::{App, MemorySnapshot};

fn snapshot(total: u64, free: u64, available: u64, buffers: u64, cached: u64) -> MemorySnapshot {
    MemorySnapshot {
        total,
        free,
        available,
        buffers,
        cached,
        shared: 0,
        swap_total: 0,
        swap_free: 0,
    }
}

#[test]
fn scenario_a_used_and_percent() {
    let s = snapshot(16384000, 8192000, 10000000, 200000, 4000000);
    assert_eq!(s.used_kib(), 3992000);
    assert_eq!(percent(s.used_kib(), s.total), 24);
    let bars = bar_layout(&s, 100);
    assert_eq!(bars[0].category, Category::Used);
    assert_eq!(bars[0].value_kib, 3992000);
    assert_eq!(bars[0].percent_of_total, 24);
    // ceil(3992000 * 100 / 16384000) = ceil(24.36..) = 25
    assert_eq!(bars[0].bar_cells, 25);
    assert_eq!(bars[1].value_kib, 10000000);
    assert_eq!(bars[1].percent_of_total, 61);
    assert_eq!(bars[2].value_kib, 4200000);
    assert_eq!(bars[2].percent_of_total, 25);
    assert_eq!(bars[3].value_kib, 8192000);
    assert_eq!(bars[3].percent_of_total, 50);
    assert_eq!(bars[3].bar_cells, 50);
}

#[test]
fn scenario_b_zero_total() {
    let s = MemorySnapshot {
        total: 0,
        free: 7,
        available: 9,
        buffers: 3,
        cached: 5,
        shared: 2,
        swap_total: 11,
        swap_free: 4,
    };
    let bars = bar_layout(&s, 40);
    assert_eq!(bars.len(), 4);
    for b in bars.iter() {
        assert_eq!(b.percent_of_total, 0);
        assert_eq!(b.bar_cells, 0);
    }
    assert_eq!(percent(123, 0), 0);
    assert_eq!(bar_cells(123, 0, 80), 0);
}

#[test]
fn scenario_c_all_free() {
    let s = snapshot(8000, 8000, 0, 0, 0);
    assert_eq!(s.used_kib(), 0);
    let bars = bar_layout(&s, 30);
    assert_eq!(bars[3].category, Category::Free);
    assert_eq!(bars[3].percent_of_total, 100);
    assert_eq!(bars[3].bar_cells, 30);
    assert_eq!(bars[0].bar_cells, 0);
}

#[test]
fn scenario_d_half_of_forty() {
    assert_eq!(bar_cells(500, 1000, 40), 20);
    let s = snapshot(1000, 500, 0, 0, 0);
    let bars = bar_layout(&s, 40);
    assert_eq!(bars[3].bar_cells, 20);
    assert_eq!(bars[0].bar_cells, 20);
}

#[test]
fn scenario_e_value_above_total() {
    let s = snapshot(1000, 100, 2500, 0, 0);
    let bars = bar_layout(&s, 40);
    assert_eq!(bars[1].category, Category::Available);
    assert_eq!(bars[1].percent_of_total, 250);
    assert_eq!(bars[1].bar_cells, 40);
}

#[test]
fn used_saturates_when_counters_exceed_total() {
    let s = snapshot(1000, 600, 0, 300, 200);
    assert_eq!(s.used_kib(), 0);
    let s = snapshot(1000, u64::MAX, 0, u64::MAX, u64::MAX);
    assert_eq!(s.used_kib(), 0);
    assert_eq!(s.derive().used, 0);
}

#[test]
fn used_is_exact_when_counters_fit() {
    let s = snapshot(1000, 600, 0, 300, 99);
    assert_eq!(s.used_kib(), 1);
}

#[test]
fn cached_display_folds_buffers() {
    let s = snapshot(1000, 0, 0, 30, 70);
    assert_eq!(s.cached_display_kib(), 100);
    let s = snapshot(1000, 0, 0, u64::MAX, 5);
    assert_eq!(s.cached_display_kib(), u64::MAX);
}

#[test]
fn derive_twice_gives_same_result() {
    let s = snapshot(16384000, 8192000, 10000000, 200000, 4000000);
    let a = s.derive();
    let b = s.derive();
    assert_eq!(a, b);
    assert_eq!(a.used, 3992000);
    assert_eq!(a.cached_display, 4200000);
}

#[test]
fn bar_cells_stay_within_width() {
    let values = [0u64, 1, 499, 500, 999, 1000, 1001, u64::MAX];
    let widths = [0usize, 1, 7, 40, 1000];
    for &v in values.iter() {
        for &w in widths.iter() {
            let c = bar_cells(v, 1000, w);
            assert!(c <= w);
        }
    }
    assert_eq!(bar_cells(u64::MAX, u64::MAX, usize::MAX), usize::MAX);
    assert_eq!(bar_cells(u64::MAX - 1, u64::MAX, 1000), 1000);
}

#[test]
fn bar_cells_round_up() {
    assert_eq!(bar_cells(1, 1000, 40), 1);
    assert_eq!(bar_cells(0, 1000, 40), 0);
    assert_eq!(bar_cells(26, 1000, 40), 2);
    assert_eq!(bar_cells(25, 1000, 40), 1);
    assert_eq!(bar_cells(999, 1000, 40), 40);
}

#[test]
fn percent_rounds_down_and_is_not_clamped() {
    assert_eq!(percent(1, 3), 33);
    assert_eq!(percent(2, 3), 66);
    assert_eq!(percent(3, 3), 100);
    assert_eq!(percent(7, 2), 350);
    assert_eq!(percent(u64::MAX, 1), (u64::MAX as u128) * 100);
}

#[test]
fn categories_in_order_with_roles_and_names() {
    let s = snapshot(100, 10, 20, 5, 15);
    let bars = bar_layout(&s, 10);
    let order = [Category::Used, Category::Available, Category::Cached, Category::Free];
    let roles = [ColorRole::Critical, ColorRole::Caution, ColorRole::Neutral, ColorRole::Safe];
    let names = ["Used", "Available", "Cached", "Free"];
    for i in 0..4 {
        assert_eq!(bars[i].category, order[i]);
        assert_eq!(bars[i].category.role(), roles[i]);
        assert_eq!(bars[i].category.name(), names[i]);
    }
    assert_eq!(bars[0].value_kib, 70);
    assert_eq!(bars[2].value_kib, 20);
}

#[test]
fn new_app_is_all_zero() {
    let app = App::new();
    assert_eq!(app.snapshot, MemorySnapshot::zeroed());
    assert_eq!(app.snapshot.total, 0);
    assert_eq!(app.snapshot.swap_free, 0);
}
