// Moves date-prefixed blog posts to a new naming and front-matter convention:
// `date` finds the `YYYY-MM-DD-` prefix of a file name, `destination` plans
// where a post goes, `rewrite` produces its new text and `batch` tallies a run.
use vstd::prelude::*;

pub mod text;
pub mod date;
pub mod destination;
pub mod rewrite;
pub mod batch;

verus! {

} // verus!
