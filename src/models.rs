use vstd::prelude::*;

verus! {

/// A node of the category forest; `parent_id == None` marks a root.
#[derive(Debug, Clone)]
pub struct Category {
    pub id: i64,
    pub name: String,
    pub description: Option<String>,
    pub parent_id: Option<i64>,
}

/// A product; `price` is in minor currency units and `category_id == None`
/// marks an uncategorized product.
#[derive(Debug, Clone)]
pub struct Product {
    pub id: i64,
    pub name: String,
    pub description: Option<String>,
    pub price: i64,
    pub category_id: Option<i64>,
}

#[derive(Debug, Clone)]
pub struct ProductCategory {
    pub product_id: i64,
    pub category_id: i64,
}

/// An administrator record; `password` holds the stored bcrypt hash.
#[derive(Debug, Clone)]
pub struct Admin {
    pub id: i64,
    pub password: String,
    pub username: String,
}

/// A category row as a recursive query yields it, whose id may be missing.
#[derive(Debug, Clone)]
pub struct SubCategory {
    pub id: Option<i64>,
    pub name: String,
    pub description: Option<String>,
    pub parent_id: Option<i64>,
}

/// A persisted session token and the administrator it was issued to.
#[derive(Debug, Clone)]
pub struct Token {
    pub token: String,
    pub admin_id: String,
}

pub fn copy_text(s: &Option<String>) -> (r: Option<String>)
    ensures
        r == *s,
{
    match s {
        Some(t) => Some(t.clone()),
        None => None,
    }
}

impl Category {
    /// A field-for-field copy.
    pub fn copy(&self) -> (r: Category)
        ensures
            r == *self,
    {
        Category {
            id: self.id,
            name: self.name.clone(),
            description: copy_text(&self.description),
            parent_id: self.parent_id,
        }
    }

    /// A category from a query row; fails when the row carries no id.
    pub fn try_from(value: &SubCategory) -> (r: Result<Category, &'static str>)
        ensures
            value.id is None <==> r is Err,
            r matches Err(m) ==> m@ == "Couldnt convert subcategory into category"@,
            r matches Ok(c) ==> c.id == value.id->0 && c.name == value.name
                && c.description == value.description && c.parent_id == value.parent_id,
    {
        if let Some(id) = value.id {
            Ok(
                Category {
                    id,
                    name: value.name.clone(),
                    description: copy_text(&value.description),
                    parent_id: value.parent_id,
                },
            )
        } else {
            Err("Couldnt convert subcategory into category")
        }
    }
}

impl Product {
    /// A field-for-field copy.
    pub fn copy(&self) -> (r: Product)
        ensures
            r == *self,
    {
        Product {
            id: self.id,
            name: self.name.clone(),
            description: copy_text(&self.description),
            price: self.price,
            category_id: self.category_id,
        }
    }
}

} // verus!
