//! Moving the selection through the listed requirements with the
//! navigation keys: one step, a page, or to either end of the list.
use vstd::prelude::*;

verus! {

/// Whether `p` is the first position of `x` in `f`.
pub open spec fn first_pos_of(f: Seq<usize>, x: usize, p: int) -> bool {
    0 <= p < f.len() && f[p] == x && forall|j: int| 0 <= j < p ==> (#[trigger] f[j]) != x
}

/// `x` kept within `lo` and `hi`.
pub open spec fn clamped(x: int, lo: int, hi: int) -> int {
    if x < lo {
        lo
    } else if x > hi {
        hi
    } else {
        x
    }
}

/// The requirement selected after a navigation step through the listed
/// positions `f`: none when nothing is listed or nothing moves; the first or
/// the last listed one for a jump to the start or the end; else, from the
/// listed selection, `delta` places on, kept within the list; without a
/// listed selection, the first one when moving down and the last one when
/// moving up.
pub open spec fn selection_after(f: Seq<usize>, sel: Option<usize>, delta: int, to_start: bool, to_end: bool) -> Option<
    usize,
> {
    if f.len() == 0 {
        None
    } else if to_start {
        Some(f[0])
    } else if to_end {
        Some(f.last())
    } else if delta == 0 {
        None
    } else if sel is Some && f.contains(sel->0) {
        let p = choose|p: int| first_pos_of(f, sel->0, p);
        Some(f[clamped(p + delta, 0, f.len() - 1)])
    } else if delta > 0 {
        Some(f[0])
    } else {
        Some(f.last())
    }
}

/// The requirement selected after a navigation step (see
/// `selection_after`): `filtered` are the listed positions, `selected` the
/// selection, `nav_delta` the number of places to move (negative: up).
pub fn next_selection(
    filtered: &Vec<usize>,
    selected: Option<usize>,
    nav_delta: i32,
    jump_to_start: bool,
    jump_to_end: bool,
) -> (r: Option<usize>)
    requires
        filtered@.len() + (if nav_delta < 0 {
            -nav_delta
        } else {
            nav_delta as int
        }) <= 0x7fff_ffff,
    ensures
        r == selection_after(filtered@, selected, nav_delta as int, jump_to_start, jump_to_end),
{
    let n = filtered.len();
    if n == 0 {
        return None;
    }
    if jump_to_start {
        return Some(filtered[0]);
    }
    if jump_to_end {
        return Some(filtered[n - 1]);
    }
    if nav_delta == 0 {
        return None;
    }
    let mut pos: Option<usize> = None;
    if let Some(c) = selected {
        let mut i: usize = 0;
        while i < n && filtered[i] != c
            invariant
                n == filtered@.len(),
                i <= n,
                forall|j: int| 0 <= j < i ==> (#[trigger] filtered@[j]) != c,
            decreases n - i,
        {
            i = i + 1;
        }
        if i < n {
            proof {
                assert(first_pos_of(filtered@, c, i as int));
                assert(filtered@.contains(c));
                let p = choose|p: int| first_pos_of(filtered@, c, p);
                if p < i {
                    assert(filtered@[p] != c);
                } else if i < p {
                    assert(filtered@[i as int] != c);
                }
            }
            pos = Some(i);
        } else {
            proof {
                assert(!filtered@.contains(c));
            }
        }
    }
    match pos {
        Some(p) => {
            let target: i64 = p as i64 + nav_delta as i64;
            let last: i64 = n as i64 - 1;
            let q: i64 = if target < 0 {
                0
            } else if target > last {
                last
            } else {
                target
            };
            Some(filtered[q as usize])
        },
        None => {
            if nav_delta > 0 {
                Some(filtered[0])
            } else {
                Some(filtered[n - 1])
            }
        },
    }
}

} // verus!
