//! Short status messages shown for a limited time.

use vstd::prelude::*;

verus! {

/// How long a toast stays visible, in milliseconds, unless configured.
pub const DEFAULT_TOAST_DURATION_MS: u64 = 1500;

/// The toast message still shown `elapsed_ms` milliseconds after it
/// appeared, for a toast that lasts `duration_ms`: the message while the
/// time elapsed is under the duration, `None` afterwards or when there is
/// no toast.
pub fn current_toast(toast: &Option<String>, elapsed_ms: u128, duration_ms: u128) -> (r: Option<&str>)
    ensures
        match toast {
            Some(m) => if elapsed_ms < duration_ms {
                r matches Some(s) && s@ == m@
            } else {
                r is None
            },
            None => r is None,
        },
{
    match toast {
        Some(m) => if elapsed_ms < duration_ms {
            Some(m.as_str())
        } else {
            None
        },
        None => None,
    }
}

} // verus!
