//! `==` and `<` on values, as the value module defines them.

use vstd::prelude::*;
use core::cmp::Ordering;
use vstd::std_specs::cmp::PartialEqSpecImpl;
use vstd::std_specs::cmp::PartialOrdSpecImpl;
use crate::value::{compare, same_value, value_order, values_equal, Order, Value};

verus! {

/// The `Ordering` that an order stands for.
pub open spec fn to_std_ordering(o: Option<Order>) -> Option<Ordering> {
    match o {
        Some(Order::Less) => Some(Ordering::Less),
        Some(Order::Equal) => Some(Ordering::Equal),
        Some(Order::Greater) => Some(Ordering::Greater),
        None => None,
    }
}

impl PartialEq for Value {
    fn eq(&self, other: &Value) -> (r: bool) {
        values_equal(self, other)
    }
}

impl PartialEqSpecImpl for Value {
    open spec fn obeys_eq_spec() -> bool {
        true
    }

    open spec fn eq_spec(&self, other: &Value) -> bool {
        same_value(self@, other@)
    }
}

impl PartialOrd for Value {
    fn partial_cmp(&self, other: &Value) -> (r: Option<Ordering>) {
        match value_order(self, other) {
            Some(Order::Less) => Some(Ordering::Less),
            Some(Order::Equal) => Some(Ordering::Equal),
            Some(Order::Greater) => Some(Ordering::Greater),
            None => None,
        }
    }
}

impl PartialOrdSpecImpl for Value {
    open spec fn obeys_partial_cmp_spec() -> bool {
        true
    }

    open spec fn partial_cmp_spec(&self, other: &Value) -> Option<Ordering> {
        to_std_ordering(compare(self@, other@))
    }
}

} // verus!
