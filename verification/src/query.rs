//! What a query prints.
use vstd::prelude::*;

verus! {

/// What is printed for a result of `row_count` rows that renders as
/// `document`: the document, or nothing at all where there is no row.
pub open spec fn rendering(row_count: nat, document: Seq<char>) -> Option<Seq<char>> {
    if row_count == 0 {
        None
    } else {
        Some(document)
    }
}

/// Chooses what to print for a query's result. A result without rows
/// prints nothing, not even an empty list.
pub fn render_rows(row_count: usize, document: String) -> (r: Option<String>)
    ensures
        r is Some == (row_count > 0),
        match r {
            Some(text) => rendering(row_count as nat, document@) == Some(text@),
            None => rendering(row_count as nat, document@) is None,
        },
{
    if row_count == 0 {
        None
    } else {
        Some(document)
    }
}

} // verus!
