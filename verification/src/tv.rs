//! Choice of the display that shows the players' view.

use vstd::prelude::*;

use crate::text::{chars_of, decimal, push_chars, push_char, push_decimal};
use vstd::std_specs::cmp::PartialEqSpec;

verus! {

/// The first place in `displays` from `k` on that holds a display other
/// than the DM's, when there is one.
pub open spec fn first_other<T: PartialEq>(displays: Seq<T>, dm_display: Option<T>, k: int) -> Option<usize>
    decreases displays.len() - k,
{
    if k < 0 || k >= displays.len() {
        None
    } else if match dm_display {
        None => true,
        Some(dm) => !displays[k].eq_spec(&dm),
    } {
        Some(k as usize)
    } else {
        first_other(displays, dm_display, k + 1)
    }
}

/// Picks the display for the TV: the first one that is not the DM's.
///
/// Returns the index into `displays`, or `None` when every display is the
/// DM's. Then the TV should open as a normal window, so it does not cover
/// the DM window. For a display type whose `==` is stated as plain
/// equality, the index is exactly the first display that differs from the
/// DM's.
pub fn pick_tv_display<T: PartialEq>(displays: &[T], dm_display: Option<&T>) -> (r: Option<usize>)
    ensures
        T::obeys_eq_spec() ==> r == first_other(displays@, match dm_display {
            Some(dm) => Some(*dm),
            None => None,
        }, 0),
        dm_display is None ==> r == (if displays@.len() > 0 { Some(0usize) } else { None }),
        r matches Some(i) ==> i < displays@.len(),
{
    let ghost dm = match dm_display {
        Some(dm) => Some(*dm),
        None => None::<T>,
    };
    let mut i: usize = 0;
    while i < displays.len()
        invariant
            i <= displays@.len(),
            dm == match dm_display {
                Some(d) => Some(*d),
                None => None,
            },
            dm_display is None ==> i == 0,
            T::obeys_eq_spec() ==> first_other(displays@, dm, 0) == first_other(displays@, dm, i as int),
        decreases displays.len() - i,
    {
        match dm_display {
            None => {
                return Some(i);
            },
            Some(d) => {
                let same = displays[i].eq(d);
                if !same {
                    return Some(i);
                }
            },
        }
        i += 1;
    }
    None
}

/// The label of a display: its name, or `Display` when it has none, and
/// its width and height.
pub open spec fn label_of(name: Option<Seq<char>>, width: u32, height: u32) -> Seq<char> {
    let shown = match name {
        Some(n) => n,
        None => "Display"@,
    };
    shown + seq![' ', '·', ' '] + decimal(width as nat) + seq![' ', '×', ' '] + decimal(height as nat)
}

/// Human-readable label for a display: its name and its resolution.
pub fn display_label(name: Option<&str>, width: u32, height: u32) -> (r: String)
    ensures
        r@ == label_of(match name {
            Some(n) => Some(n@),
            None => None,
        }, width, height),
{
    let shown = match name {
        Some(n) => n,
        None => "Display",
    };
    let cs = chars_of(shown);
    let mut out = String::new();
    push_chars(&mut out, &cs, 0, cs.len());
    push_char(&mut out, ' ');
    push_char(&mut out, '·');
    push_char(&mut out, ' ');
    push_decimal(&mut out, width as u64);
    push_char(&mut out, ' ');
    push_char(&mut out, '×');
    push_char(&mut out, ' ');
    push_decimal(&mut out, height as u64);
    proof {
        assert(cs@.subrange(0, cs@.len() as int) =~= cs@);
        assert(out@ =~= label_of(match name {
            Some(n) => Some(n@),
            None => None,
        }, width, height));
    }
    out
}

} // verus!
