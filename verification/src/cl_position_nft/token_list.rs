//! Lists of token ids, kept in the host's vectors.
//!
//! A vector of the host is an immutable object to which the program holds a
//! handle; a change makes a new object and turns the handle to it. The type of a
//! vector does not vouch for its items: a vector of ids that was read from the
//! ledger can hold something else. The host meters each call and ends the whole
//! invocation when its budget is spent, as a machine does that runs out of
//! memory; nothing is said of that here.

use soroban_sdk::{Env, Vec as HostVec};
use vstd::prelude::*;

verus! {

/// The handle of the host, in which its vectors live.
#[verifier::external_type_specification]
#[verifier::external_body]
pub struct ExEnv(soroban_sdk::Env);

/// A vector of the host.
#[verifier::external_type_specification]
#[verifier::external_body]
#[verifier::reject_recursive_types(T)]
pub struct ExHostVec<T>(soroban_sdk::Vec<T>);

/// An error of the host.
#[verifier::external_type_specification]
#[verifier::external_body]
pub struct ExHostError(soroban_sdk::Error);

/// The items in a vector of the host, in order; `None` stands for an item that is
/// no token id.
pub uninterp spec fn list_items(list: soroban_sdk::Vec<u64>) -> Seq<Option<u64>>;

/// `soroban_sdk::Vec::new`: a new vector is empty.
#[verifier::external_body]
pub(crate) fn list_new(env: &Env) -> (list: HostVec<u64>)
    ensures
        list_items(list) == Seq::<Option<u64>>::empty(),
{
    HostVec::new(env)
}

/// `soroban_sdk::Vec::clone`: the copy holds the same items. What becomes of
/// either vector leaves the other alone, for each change makes a new object in
/// the host.
#[verifier::external_body]
pub(crate) fn list_clone(list: &HostVec<u64>) -> (copy: HostVec<u64>)
    ensures
        list_items(copy) == list_items(*list),
{
    list.clone()
}

/// `soroban_sdk::Vec::len`: the number of items. A vector of the host has no more
/// items than this type can count.
#[verifier::external_body]
pub(crate) fn list_len(list: &HostVec<u64>) -> (len: u32)
    ensures
        len == list_items(*list).len(),
{
    list.len()
}

/// `soroban_sdk::Vec::try_get`: the item at a position, and nothing beyond the
/// end; an error exactly where the item is no token id.
#[verifier::external_body]
pub(crate) fn list_try_get(list: &HostVec<u64>, i: u32) -> (id: Result<
    Option<u64>,
    soroban_sdk::Error,
>)
    ensures
        match id {
            Ok(Some(found)) => i < list_items(*list).len() && list_items(*list)[i as int] == Some(
                found,
            ),
            Ok(None) => i >= list_items(*list).len(),
            Err(_) => i < list_items(*list).len() && list_items(*list)[i as int] is None,
        },
{
    list.try_get(i)
}

/// `soroban_sdk::Vec::push_back`: puts an item behind all others.
#[verifier::external_body]
pub(crate) fn list_push_back(list: &mut HostVec<u64>, id: u64)
    requires
        list_items(*old(list)).len() < u32::MAX,
    ensures
        list_items(*final(list)) == list_items(*old(list)).push(Some(id)),
{
    list.push_back(id)
}

/// `soroban_sdk::Vec::remove`: takes out the item at a position and closes the
/// gap; beyond the end it changes nothing and returns `None`.
#[verifier::external_body]
pub(crate) fn list_remove(list: &mut HostVec<u64>, i: u32) -> (done: Option<()>)
    ensures
        done is Some <==> i < list_items(*old(list)).len(),
        list_items(*final(list)) == (if i < list_items(*old(list)).len() {
            list_items(*old(list)).remove(i as int)
        } else {
            list_items(*old(list))
        }),
{
    list.remove(i)
}

/// Every item of a list is a token id.
pub open spec fn holds_ids(list: HostVec<u64>) -> bool {
    forall|i: int| 0 <= i < list_items(list).len() ==> (#[trigger] list_items(list)[i]) is Some
}

/// The token ids in a list, in order.
pub open spec fn token_ids(list: HostVec<u64>) -> Seq<u64> {
    list_items(list).map_values(|item: Option<u64>| item->0)
}

/// A list without the first occurrence of `id`.
pub open spec fn without_first(list: Seq<u64>, id: u64) -> Seq<u64> {
    match list.index_of_first(id) {
        Some(i) => list.remove(i),
        None => list,
    }
}

/// Whether every item of a list is a token id.
pub fn is_id_list(list: &HostVec<u64>) -> (yes: bool)
    ensures
        yes == holds_ids(*list),
{
    let len = list_len(list);
    let mut i: u32 = 0;
    while i < len
        invariant
            i <= len,
            len == list_items(*list).len(),
            forall|j: int| 0 <= j < i ==> (#[trigger] list_items(*list)[j]) is Some,
        decreases len - i,
    {
        if list_try_get(list, i).is_err() {
            return false;
        }
        i += 1;
    }
    true
}

/// Puts `id` behind all others.
pub(crate) fn append(list: &mut HostVec<u64>, id: u64)
    requires
        holds_ids(*old(list)),
        token_ids(*old(list)).len() < u32::MAX,
    ensures
        holds_ids(*final(list)),
        token_ids(*final(list)) == token_ids(*old(list)).push(id),
{
    list_push_back(list, id);
    assert(token_ids(*list) =~= token_ids(*old(list)).push(id));
}

/// Takes the first occurrence of `id` out of a list. Returns whether there was
/// one.
pub fn take_out(list: &mut HostVec<u64>, id: u64) -> (found: bool)
    requires
        holds_ids(*old(list)),
    ensures
        holds_ids(*final(list)),
        found == token_ids(*old(list)).contains(id),
        token_ids(*final(list)) == without_first(token_ids(*old(list)), id),
{
    let ghost ids = token_ids(*list);
    let len = list_len(list);
    let mut i: u32 = 0;
    while i < len
        invariant
            i <= len,
            *list == *old(list),
            holds_ids(*list),
            ids == token_ids(*list),
            len == ids.len(),
            forall|j: int| 0 <= j < i ==> ids[j] != id,
        decreases len - i,
    {
        let here = match list_try_get(list, i) {
            Ok(Some(item)) => item == id,
            _ => false,
        };
        if here {
            proof {
                ids.index_of_first_ensures(id);
                assert(ids[i as int] == id);
            }
            let _ = list_remove(list, i);
            assert(token_ids(*list) =~= ids.remove(i as int));
            return true;
        }
        i += 1;
    }
    proof {
        ids.index_of_first_ensures(id);
    }
    false
}

} // verus!
