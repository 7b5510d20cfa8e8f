//! Choosing the name of a numbered backup copy: `<name>.bak.<n>` for the
//! first free `n` from 1 up to [`MAX_BACKUPS`].
use vstd::prelude::*;

use crate::text::{decimal, push_decimal};

verus! {

broadcast use vstd::string::group_string_axioms;

/// The highest backup number that is tried.
pub const MAX_BACKUPS: u32 = 1000;

/// The name of backup copy `counter` of the file `file_name`.
pub open spec fn backup_name(file_name: Seq<char>, counter: nat) -> Seq<char> {
    file_name + seq!['.', 'b', 'a', 'k', '.'] + decimal(counter)
}

/// The name of backup copy `counter` of the file `file_name`, `<file_name>.bak.<counter>`.
pub fn backup_file_name(file_name: &str, counter: u32) -> (r: String)
    ensures
        r@ == backup_name(file_name@, counter as nat),
{
    let mut r = file_name.to_string();
    r.append(".bak.");
    proof {
        reveal_strlit(".bak.");
    }
    push_decimal(&mut r, counter as u64);
    assert(r@ =~= backup_name(file_name@, counter as nat));
    r
}

/// The number tried after `counter` is taken, none once [`MAX_BACKUPS`] was tried.
pub open spec fn next_counter(counter: nat) -> Option<nat> {
    if counter >= MAX_BACKUPS {
        None
    } else {
        Some(counter + 1)
    }
}

/// The backup number to try after `counter` turned out to be taken.
pub fn next_backup_counter(counter: u32) -> (r: Option<u32>)
    ensures
        r matches Some(c) ==> next_counter(counter as nat) == Some(c as nat),
        r is None ==> next_counter(counter as nat) is None,
{
    if counter >= MAX_BACKUPS {
        None
    } else {
        Some(counter + 1)
    }
}

/// The number tried at step `k` of the search, which starts at 1.
pub open spec fn counter_at_step(k: nat) -> Option<nat>
    decreases k,
{
    if k == 0 {
        Some(1)
    } else {
        match counter_at_step((k - 1) as nat) {
            Some(c) => next_counter(c),
            None => None,
        }
    }
}

/// The search for a free backup name tries the numbers 1, 2, ..., up to
/// [`MAX_BACKUPS`] in this order and then gives up.
pub proof fn lemma_backup_search_order(k: nat)
    ensures
        k < MAX_BACKUPS ==> counter_at_step(k) == Some(k + 1),
        k >= MAX_BACKUPS ==> counter_at_step(k) is None,
    decreases k,
{
    if k > 0 {
        lemma_backup_search_order((k - 1) as nat);
    }
}

} // verus!
