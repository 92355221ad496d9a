use crate::dialect::DialectParser;
use vstd::prelude::*;

verus! {

/// The dialect of Semantic Versioning 2.0.0: it takes every rule as
/// [`DialectParser`] provides it.
pub struct Standard;

impl DialectParser for Standard {

}

} // verus!
