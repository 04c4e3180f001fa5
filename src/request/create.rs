use vstd::prelude::*;

verus! {

#[derive(Debug, Clone)]
pub struct Product {
    pub name: String,
    pub description: Option<String>,
    pub price: i64,
    pub category_id: Option<i64>,
}

#[derive(Debug, Clone)]
pub struct Category {
    pub name: String,
    pub description: Option<String>,
    pub parent_id: Option<i64>,
}

} // verus!
