//! Choosing a pane's profile: cycling through the configured profiles and
//! picking one by its number.

use vstd::prelude::*;

use crate::text::{str_eq, string_push_str};

verus! {

/// Index of the first name equal to `current`, if any.
pub open spec fn position_of(names: Seq<String>, current: Seq<char>) -> Option<int> {
    if exists|i: int| 0 <= i < names.len() && names[i]@ == current {
        Some(choose|i: int| 0 <= i < names.len() && names[i]@ == current && forall|j: int| 0 <= j < i ==> names[j]@ != current)
    } else {
        None
    }
}

/// The profile after (or, when `reverse`, before) the current one, wrapping
/// around; a current profile that is not listed counts as the first. There
/// is nothing to cycle through with fewer than two profiles.
pub open spec fn spec_cycle(names: Seq<String>, current: Seq<char>, reverse: bool) -> Option<int> {
    if names.len() <= 1 {
        None
    } else {
        let cur = match position_of(names, current) {
            Some(i) => i,
            None => 0,
        };
        Some(if reverse {
            if cur == 0 {
                names.len() - 1
            } else {
                cur - 1
            }
        } else {
            (cur + 1) % (names.len() as int)
        })
    }
}

/// Index, among `names`, of the profile to switch to when cycling.
pub fn cycle_profile_index(names: &Vec<String>, current: &str, reverse: bool) -> (r: Option<usize>)
    ensures
        match r {
            Some(i) => spec_cycle(names@, current@, reverse) == Some(i as int),
            None => spec_cycle(names@, current@, reverse) is None,
        },
{
    let n = names.len();
    if n <= 1 {
        return None;
    }
    let mut cur: usize = 0;
    let mut found = false;
    let mut i: usize = 0;
    while i < n
        invariant
            n == names@.len(),
            i <= n,
            !found ==> cur == 0 && forall|j: int| 0 <= j < i ==> names@[j]@ != current@,
            found ==> cur < n && names@[cur as int]@ == current@ && forall|j: int| 0 <= j < cur ==> names@[j]@ != current@,
        decreases n - i,
    {
        if !found && str_eq(names[i].as_str(), current) {
            cur = i;
            found = true;
        }
        i = i + 1;
    }
    proof {
        let p = |k: int| 0 <= k < names@.len() && names@[k]@ == current@ && forall|j: int| 0 <= j < k ==> names@[j]@ != current@;
        if found {
            assert(p(cur as int));
            let c = choose|k: int| 0 <= k < names@.len() && names@[k]@ == current@ && forall|j: int| 0 <= j < k ==> names@[j]@ != current@;
            assert(p(c));
            if c < cur {
                assert(names@[c]@ != current@);
            }
            if cur < c {
                assert(names@[cur as int]@ != current@);
            }
            assert(position_of(names@, current@) == Some(cur as int));
        } else {
            assert(position_of(names@, current@) is None);
        }
    }
    proof {
        if cur + 1 < n {
            vstd::arithmetic::div_mod::lemma_small_mod((cur + 1) as nat, n as nat);
        } else {
            vstd::arithmetic::div_mod::lemma_mod_self_0(n as int);
        }
    }
    if reverse {
        Some(if cur == 0 { n - 1 } else { cur - 1 })
    } else {
        Some(if cur + 1 < n { cur + 1 } else { 0 })
    }
}

/// Index of the profile with number `number` (counted from 1) among
/// `count` profiles, or `None` when there is no such profile.
pub fn profile_index(number: usize, count: usize) -> (r: Option<usize>)
    requires
        number >= 1,
    ensures
        r == if number - 1 < count { Some((number - 1) as usize) } else { None::<usize> },
{
    let idx = number - 1;
    if idx < count {
        Some(idx)
    } else {
        None
    }
}

/// The message shown after switching to profile `name`.
pub fn profile_message(name: &str) -> (r: String)
    ensures
        r@ == "Profile: "@ + name@,
{
    let mut s = String::new();
    string_push_str(&mut s, "Profile: ");
    string_push_str(&mut s, name);
    s
}

} // verus!
