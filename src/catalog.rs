use vstd::prelude::*;

use crate::matcher::Entry;

verus! {

/// Why an edit of the catalog was refused.
#[derive(Clone, Copy, Debug, PartialEq, Eq, Structural)]
pub enum CatalogError {
    /// An entry with that name is already in the catalog.
    DuplicateName,
    /// No entry with that name is in the catalog.
    UnknownName,
}

/// Some entry of `c` is called `name`.
pub open spec fn has_name(c: Seq<Entry>, name: Seq<char>) -> bool {
    exists|i: int| 0 <= i < c.len() && (#[trigger] c[i]).name@ == name
}

/// `i` is the first position of `c` whose entry is called `name`.
pub open spec fn first_named(c: Seq<Entry>, name: Seq<char>, i: int) -> bool {
    &&& 0 <= i < c.len()
    &&& c[i].name@ == name
    &&& forall|j: int| 0 <= j < i ==> (#[trigger] c[j]).name@ != name
}

/// The first position of `catalog` whose entry is called `name`, if any.
pub fn position_of(catalog: &Vec<Entry>, name: &String) -> (r: Option<usize>)
    ensures
        r is None <==> !has_name(catalog@, name@),
        r matches Some(i) ==> first_named(catalog@, name@, i as int),
{
    let mut i: usize = 0;
    while i < catalog.len()
        invariant
            i <= catalog@.len(),
            forall|j: int| 0 <= j < i ==> (#[trigger] catalog@[j]).name@ != name@,
        decreases catalog@.len() - i,
    {
        if catalog[i].name == *name {
            return Some(i);
        }
        i += 1;
    }
    None
}

/// Appends `entry` to the catalog, unless an entry of the same name is there.
pub fn add_entry(catalog: &mut Vec<Entry>, entry: Entry) -> (r: Result<(), CatalogError>)
    ensures
        r is Err <==> has_name(old(catalog)@, entry.name@),
        r is Err ==> r == Err::<(), CatalogError>(CatalogError::DuplicateName)
            && final(catalog)@ == old(catalog)@,
        r is Ok ==> final(catalog)@ == old(catalog)@.push(entry),
{
    match position_of(catalog, &entry.name) {
        Some(_) => Err(CatalogError::DuplicateName),
        None => {
            catalog.push(entry);
            Ok(())
        },
    }
}

/// Removes the first entry called `name` and hands it back; with no entry of
/// that name the catalog stays as it is.
pub fn remove_entry(catalog: &mut Vec<Entry>, name: &String) -> (r: Result<Entry, CatalogError>)
    ensures
        r is Ok <==> has_name(old(catalog)@, name@),
        r is Err ==> r == Err::<Entry, CatalogError>(CatalogError::UnknownName)
            && final(catalog)@ == old(catalog)@,
        r matches Ok(e) ==> exists|i: int|
            first_named(old(catalog)@, name@, i) && e == old(catalog)@[i]
                && final(catalog)@ == old(catalog)@.remove(i),
{
    match position_of(catalog, name) {
        Some(i) => {
            let e = catalog.remove(i);
            assert(first_named(old(catalog)@, name@, i as int));
            Ok(e)
        },
        None => Err(CatalogError::UnknownName),
    }
}

} // verus!
