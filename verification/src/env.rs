use vstd::prelude::*;

verus! {

/// One gibibyte: the environment's growth quantum and free-space floor.
pub const GIB: u64 = 1073741824;

/// Relies on page_size::get: the operating system's memory page size.
/// Nothing is promised of the value; the resize arithmetic guards
/// against a degenerate report itself.
#[verifier::external_body]
pub fn os_page_size() -> usize {
    page_size::get()
}

/// Decide whether the memory map must be resized, and to what.
///
/// With `free = map_size - page_sz * last_page_used` bytes still
/// unused, a resize is wanted when `free` drops under one gibibyte (a
/// write must never fail for want of room) or exceeds two (the map
/// shrank its use and can be re-planned). The new size adds one
/// gibibyte and is rounded up to the next page boundary. A degenerate
/// page size of zero, or a map smaller than its own use, asks for no
/// resize.
pub open spec fn spec_resize_plan(map_size: u64, last_page_used: u64, page_sz: u64) -> Option<
    u64,
> {
    let m = map_size as int;
    let p = page_sz as int;
    let used = p * (last_page_used as int);
    if p == 0 || used > m {
        None
    } else {
        let free = m - used;
        if free < GIB || free > 2 * (GIB as int) {
            let grown = m + GIB;
            Some((grown + (p - (grown % p)) % p) as u64)
        } else {
            None
        }
    }
}

/// The executable resize decision; see [`spec_resize_plan`].
pub fn resize_plan(map_size: u64, last_page_used: u64, page_sz: u64) -> (r: Option<u64>)
    requires
        map_size <= u64::MAX - 2 * GIB,
        page_sz <= GIB,
    ensures
        r == spec_resize_plan(map_size, last_page_used, page_sz),
        match r {
            Some(n) => n >= map_size + GIB && (page_sz > 0 ==> n % page_sz == 0),
            None => true,
        },
{
    if page_sz == 0 {
        return None;
    }
    let used = page_sz.checked_mul(last_page_used);
    let used: u64 = match used {
        Some(u) => u,
        None => {
            return None;
        },
    };
    if used > map_size {
        return None;
    }
    let free = map_size - used;
    if free < GIB || free > 2 * GIB {
        let grown = map_size + GIB;
        let pad = (page_sz - (grown % page_sz)) % page_sz;
        let n = grown + pad;
        proof {
            assert(n % page_sz == 0) by {
                let g = grown as int;
                let p = page_sz as int;
                assert((g + (p - g % p) % p) % p == 0) by (nonlinear_arith)
                    requires
                        p > 0,
                        g >= 0,
                ;
            }
        }
        Some(n)
    } else {
        None
    }
}

} // verus!
