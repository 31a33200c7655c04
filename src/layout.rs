use vstd::prelude::*;

use crate::snapshot::{cached_display_spec, used_spec, MemorySnapshot};

verus! {

/// The four displayed memory categories, in display order.
#[derive(Clone, Copy, Debug, PartialEq, Eq, Structural)]
pub enum Category {
    Used,
    Available,
    Cached,
    Free,
}

/// A symbolic colour; the renderer picks the concrete colour.
#[derive(Clone, Copy, Debug, PartialEq, Eq, Structural)]
pub enum ColorRole {
    Critical,
    Caution,
    Neutral,
    Safe,
}

/// One row of the display: a category, its quantity, its share of total and
/// the length of its bar.
#[derive(Clone, Copy, Debug, PartialEq, Eq, Structural)]
pub struct CategoryBar {
    pub category: Category,
    pub value_kib: u64,
    pub percent_of_total: u128,
    pub bar_cells: usize,
}

pub open spec fn role_spec(c: Category) -> ColorRole {
    match c {
        Category::Used => ColorRole::Critical,
        Category::Available => ColorRole::Caution,
        Category::Cached => ColorRole::Neutral,
        Category::Free => ColorRole::Safe,
    }
}

pub open spec fn name_spec(c: Category) -> Seq<char> {
    match c {
        Category::Used => seq!['U', 's', 'e', 'd'],
        Category::Available => seq!['A', 'v', 'a', 'i', 'l', 'a', 'b', 'l', 'e'],
        Category::Cached => seq!['C', 'a', 'c', 'h', 'e', 'd'],
        Category::Free => seq!['F', 'r', 'e', 'e'],
    }
}

/// `value * 100 / total` rounded down, and zero when `total` is zero. A value
/// above total gives more than 100: that is kept, not clamped.
pub open spec fn percent_spec(value: int, total: int) -> int {
    if total == 0 {
        0
    } else {
        value * 100 / total
    }
}

/// `ceil(value / total * width)` clamped to `[0, width]`, and zero when
/// `total` is zero.
pub open spec fn bar_cells_spec(value: int, total: int, width: int) -> int {
    if total == 0 {
        0
    } else {
        let c = (value * width + total - 1) / total;
        if c > width {
            width
        } else {
            c
        }
    }
}

/// The quantity a category shows, in kibibytes.
pub open spec fn category_value_spec(s: MemorySnapshot, c: Category) -> int {
    match c {
        Category::Used => used_spec(s),
        Category::Available => s.available as int,
        Category::Cached => cached_display_spec(s),
        Category::Free => s.free as int,
    }
}

pub open spec fn category_bar_spec(s: MemorySnapshot, c: Category, width: int) -> CategoryBar {
    let v = category_value_spec(s, c);
    CategoryBar {
        category: c,
        value_kib: v as u64,
        percent_of_total: percent_spec(v, s.total as int) as u128,
        bar_cells: bar_cells_spec(v, s.total as int, width) as usize,
    }
}

pub open spec fn category_order() -> Seq<Category> {
    seq![Category::Used, Category::Available, Category::Cached, Category::Free]
}

/// The bars of a snapshot for a bar region `width` cells wide, in display order.
pub open spec fn layout_spec(s: MemorySnapshot, width: int) -> Seq<CategoryBar> {
    category_order().map_values(|c: Category| category_bar_spec(s, c, width))
}

impl Category {
    /// The display label.
    pub fn name(&self) -> (r: &'static str)
        ensures
            r@ == name_spec(*self),
    {
        match self {
            Category::Used => {
                proof {
                    reveal_strlit("Used");
                }
                "Used"
            },
            Category::Available => {
                proof {
                    reveal_strlit("Available");
                }
                "Available"
            },
            Category::Cached => {
                proof {
                    reveal_strlit("Cached");
                }
                "Cached"
            },
            Category::Free => {
                proof {
                    reveal_strlit("Free");
                }
                "Free"
            },
        }
    }

    /// The colour role: Used is critical, Available caution, Cached neutral
    /// and Free safe.
    pub fn role(&self) -> (r: ColorRole)
        ensures
            r == role_spec(*self),
    {
        match self {
            Category::Used => ColorRole::Critical,
            Category::Available => ColorRole::Caution,
            Category::Cached => ColorRole::Neutral,
            Category::Free => ColorRole::Safe,
        }
    }
}

/// The share of `value` in `total` as a whole percentage, rounded down; zero
/// when `total` is zero.
pub fn percent(value: u64, total: u64) -> (r: u128)
    ensures
        r == percent_spec(value as int, total as int),
        total == 0 ==> r == 0,
        value <= total ==> r <= 100,
{
    if total == 0 {
        0
    } else {
        proof {
            assert((value as int) * 100 <= u64::MAX as int * 100) by (nonlinear_arith);
            if value <= total {
                assert((value as int) * 100 / (total as int) <= 100) by (nonlinear_arith)
                    requires
                        value <= total,
                        total > 0,
                ;
            }
        }
        (value as u128) * 100 / (total as u128)
    }
}

/// The number of cells a bar of `value` takes in a region `width` cells wide:
/// the proportional length rounded up, so that a nonzero value shows at
/// least one cell, and never more than `width`.
pub fn bar_cells(value_kib: u64, total_kib: u64, width: usize) -> (r: usize)
    ensures
        r == bar_cells_spec(value_kib as int, total_kib as int, width as int),
        r <= width,
        total_kib == 0 ==> r == 0,
{
    if total_kib == 0 {
        return 0;
    }
    if value_kib >= total_kib {
        proof {
            assert((value_kib as int) * (width as int) + total_kib - 1 >= (total_kib as int) * (
            width as int)) by (nonlinear_arith)
                requires
                    value_kib >= total_kib,
                    total_kib > 0,
            ;
            assert(((value_kib as int) * (width as int) + total_kib - 1) / (total_kib as int)
                >= width) by (nonlinear_arith)
                requires
                    (value_kib as int) * (width as int) + total_kib - 1 >= (total_kib as int) * (
                    width as int),
                    total_kib > 0,
            ;
        }
        return width;
    }
    let v = value_kib as u128;
    let w = width as u128;
    let t = total_kib as u128;
    proof {
        let (vi, wi, ti) = (v as int, w as int, t as int);
        assert(vi * wi <= (u64::MAX as int) * (u64::MAX as int)) by (nonlinear_arith)
            requires
                0 <= vi <= u64::MAX,
                0 <= wi <= u64::MAX,
        ;
        assert((vi * wi + ti - 1) / ti <= wi) by (nonlinear_arith)
            requires
                0 <= vi < ti,
                0 <= wi,
        ;
    }
    let c = (v * w + t - 1) / t;
    c as usize
}

/// The bar of one category of a snapshot.
pub fn category_bar(s: &MemorySnapshot, c: Category, width: usize) -> (r: CategoryBar)
    ensures
        r == category_bar_spec(*s, c, width as int),
{
    let v = match c {
        Category::Used => s.used_kib(),
        Category::Available => s.available,
        Category::Cached => s.cached_display_kib(),
        Category::Free => s.free,
    };
    CategoryBar {
        category: c,
        value_kib: v,
        percent_of_total: percent(v, s.total),
        bar_cells: bar_cells(v, s.total, width),
    }
}

/// The four bars of a snapshot, Used, Available, Cached and Free in that
/// order, for a bar region `width` cells wide.
pub fn bar_layout(s: &MemorySnapshot, width: usize) -> (r: Vec<CategoryBar>)
    ensures
        r@ == layout_spec(*s, width as int),
{
    let r = vec![
        category_bar(s, Category::Used, width),
        category_bar(s, Category::Available, width),
        category_bar(s, Category::Cached, width),
        category_bar(s, Category::Free, width),
    ];
    assert(r@ =~= layout_spec(*s, width as int));
    r
}

/// With a total of zero, every bar shows zero percent and zero cells,
/// whatever the other counters hold.
pub proof fn lemma_zero_total_layout(s: MemorySnapshot, width: int)
    requires
        s.total == 0,
        0 <= width <= usize::MAX,
    ensures
        layout_spec(s, width).len() == 4,
        forall|i: int|
            0 <= i < 4 ==> #[trigger] layout_spec(s, width)[i].percent_of_total == 0
                && layout_spec(s, width)[i].bar_cells == 0,
{
}

/// Every bar of a layout fits in the width it was laid out for.
pub proof fn lemma_layout_within_width(s: MemorySnapshot, width: int)
    requires
        0 <= width <= usize::MAX,
    ensures
        layout_spec(s, width).len() == 4,
        forall|i: int|
            0 <= i < 4 ==> 0 <= #[trigger] layout_spec(s, width)[i].bar_cells <= width,
{
    assert forall|i: int| 0 <= i < 4 implies 0 <= #[trigger] layout_spec(s, width)[i].bar_cells
        <= width by {
        let c = category_order()[i];
        lemma_bar_cells_bounds(category_value_spec(s, c), s.total as int, width);
    }
}

/// The length of any bar lies in `[0, width]`.
pub proof fn lemma_bar_cells_bounds(value: int, total: int, width: int)
    requires
        0 <= value,
        0 <= total,
        0 <= width,
    ensures
        0 <= bar_cells_spec(value, total, width) <= width,
{
    if total > 0 {
        assert((value * width + total - 1) / total >= 0) by (nonlinear_arith)
            requires
                0 <= value,
                0 < total,
                0 <= width,
        ;
    }
}

} // verus!
