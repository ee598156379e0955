//! Page-range selection for a pagination control: which page numbers to
//! display around the current one.

use vstd::prelude::*;

verus! {

/// The `len`-long run of consecutive page numbers starting at `lo`.
pub open spec fn page_run(lo: int, len: int) -> Seq<u32> {
    Seq::new(len as nat, |k: int| (lo + k) as u32)
}

/// The window of pages to display: `count_to_select` pages centred on
/// `current` (one more to the right when even), clamped to
/// `[0, total_pages)`; every page when at least all are asked for; the
/// current page alone when one is asked for.
pub open spec fn page_range_spec(current: u32, count_to_select: u32, total_pages: u32) -> Seq<
    u32,
> {
    if count_to_select == 1 {
        seq![current]
    } else if count_to_select >= total_pages {
        page_run(0, total_pages as int)
    } else {
        let left = (count_to_select - 1) / 2;
        let right = (count_to_select - 1) / 2 + (count_to_select - 1) % 2;
        if current < left {
            page_run(0, count_to_select as int)
        } else if current > total_pages - right - 1 {
            page_run(total_pages - count_to_select, count_to_select as int)
        } else {
            page_run(current - left, count_to_select as int)
        }
    }
}

/// The consecutive page numbers from `lo` up to, excluding, `hi`.
fn collect_range(lo: u32, hi: u32) -> (r: Vec<u32>)
    requires
        lo <= hi,
    ensures
        r@ == page_run(lo as int, hi - lo),
{
    let mut v: Vec<u32> = Vec::new();
    let mut i: u32 = lo;
    proof {
        assert(v@ =~= page_run(lo as int, 0));
    }
    while i < hi
        invariant
            lo <= i <= hi,
            v@ == page_run(lo as int, i - lo),
        decreases hi - i,
    {
        v.push(i);
        i = i + 1;
        proof {
            assert(v@ =~= page_run(lo as int, i - lo));
        }
    }
    v
}

/// The window of pages a pagination control displays, as
/// [`page_range_spec`] lays it out.
pub fn select_page_range(current: u32, count_to_select: u32, total_pages: u32) -> (r: Vec<u32>)
    requires
        count_to_select >= 1 || total_pages == 0,
    ensures
        r@ == page_range_spec(current, count_to_select, total_pages),
{
    if count_to_select == 1 {
        let mut v: Vec<u32> = Vec::new();
        v.push(current);
        proof {
            assert(v@ =~= seq![current]);
        }
        return v;
    }
    if count_to_select >= total_pages {
        return collect_range(0, total_pages);
    }
    let left = (count_to_select - 1) / 2;
    let right = (count_to_select - 1) / 2 + (count_to_select - 1) % 2;
    if current < left {
        return collect_range(0, count_to_select);
    }
    if current > total_pages - right - 1 {
        return collect_range(total_pages - count_to_select, total_pages);
    }
    collect_range(current - left, current + right + 1)
}

} // verus!
