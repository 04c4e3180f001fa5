use vstd::prelude::*;

verus! {

#[derive(Debug, Clone)]
pub struct Product {
    pub product_id: i64,
}

#[derive(Debug, Clone)]
pub struct Category {
    pub category_id: i64,
}

} // verus!
