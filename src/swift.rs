//! The listing of a container, as the object store returns it page by page.
use vstd::prelude::*;

verus! {

/// One object of a container listing.
pub struct ObjectEntry {
    pub hash: String,
    pub last_modified: String,
    pub bytes: i128,
    pub name: String,
    pub content_type: String,
}

/// Where the next page of a listing starts: after the last name of this page;
/// `None` once a page comes back empty, which ends the listing.
pub fn next_marker(page: &Vec<ObjectEntry>) -> (r: Option<String>)
    ensures
        page@.len() == 0 ==> r is None,
        page@.len() > 0 ==> (r matches Some(m) && m@ == page@.last().name@),
{
    let n = page.len();
    if n == 0 {
        None
    } else {
        Some(page[n - 1].name.clone())
    }
}

} // verus!
