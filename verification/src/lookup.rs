//! Finding a location label in the reference city listing.
//!
//! The distance step matches each measurement's location label against a
//! listing of known cities; the coordinates of the matched entry then feed
//! the distance computation outside the library.

use vstd::prelude::*;

verus! {

/// Index of the first entry of `names` whose text equals `name`, or `None`
/// when no entry matches.
pub fn find_city(names: &Vec<String>, name: &String) -> (r: Option<usize>)
    ensures
        r matches Some(i) ==> i < names@.len() && names@[i as int]@ == name@ && (forall|j: int|
            0 <= j < i ==> (#[trigger] names@[j])@ != name@),
        r is None <==> (forall|j: int| 0 <= j < names@.len() ==> (#[trigger] names@[j])@ != name@),
{
    let mut i: usize = 0;
    while i < names.len()
        invariant
            i <= names@.len(),
            forall|j: int| 0 <= j < i ==> (#[trigger] names@[j])@ != name@,
        decreases names@.len() - i,
    {
        if names[i] == *name {
            return Some(i);
        }
        i = i + 1;
    }
    None
}

} // verus!
