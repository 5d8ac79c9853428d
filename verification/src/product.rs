//! Products: the goods kept in the repositories.

use vstd::prelude::*;

verus! {

/// A product as persisted. `price` is the reference unit price in cents;
/// `max_amount` and `min_amount` bound the stock the business wants to hold
/// (both inclusive).
#[derive(Debug, Clone)]
pub struct Product {
    pub id: u32,
    pub name: String,
    pub size: String,
    pub price: u32,
    pub max_amount: u32,
    pub min_amount: u32,
}

/// A query for one product by id.
#[derive(Debug, Clone, Copy)]
pub struct ProductQueryId {
    pub id: u32,
}

/// The fields of a product to create.
#[derive(Debug, Clone)]
pub struct InsertProduct {
    pub name: String,
    pub size: String,
    pub price: u32,
    pub max_amount: u32,
    pub min_amount: u32,
}

/// A partial update of a product: absent fields keep their stored value.
#[derive(Debug, Clone)]
pub struct UpdateProduct {
    pub id: u32,
    pub name: Option<String>,
    pub size: Option<String>,
    pub price: Option<u32>,
    pub max_amount: Option<u32>,
    pub min_amount: Option<u32>,
}

impl UpdateProduct {
    /// The stored row after this update: each named field replaces the stored
    /// one, absent fields keep it.
    pub fn apply_to(&self, stored: &Product) -> (r: Product)
        ensures
            r.id == stored.id,
            r.name == (if self.name is Some { self.name->Some_0 } else { stored.name }),
            r.size == (if self.size is Some { self.size->Some_0 } else { stored.size }),
            r.price == (if self.price is Some { self.price->Some_0 } else { stored.price }),
            r.max_amount == (if self.max_amount is Some { self.max_amount->Some_0 } else { stored.max_amount }),
            r.min_amount == (if self.min_amount is Some { self.min_amount->Some_0 } else { stored.min_amount }),
    {
        Product {
            id: stored.id,
            name: match &self.name {
                Some(v) => v.clone(),
                None => stored.name.clone(),
            },
            size: match &self.size {
                Some(v) => v.clone(),
                None => stored.size.clone(),
            },
            price: match self.price {
                Some(v) => v,
                None => stored.price,
            },
            max_amount: match self.max_amount {
                Some(v) => v,
                None => stored.max_amount,
            },
            min_amount: match self.min_amount {
                Some(v) => v,
                None => stored.min_amount,
            },
        }
    }
}

} // verus!
