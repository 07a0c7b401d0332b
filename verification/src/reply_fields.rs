//! Reading the fields of a model's JSON reply the lenient way: a string
//! field that is missing or not a string reads as empty, a list field keeps
//! only its string items.

use vstd::prelude::*;
use crate::lookup_text::{string_views, ModelValue};

verus! {

/// The text of a string field; empty for any other value.
pub open spec fn field_text(v: ModelValue) -> Seq<char> {
    match v {
        ModelValue::Text(s) => s@,
        _ => Seq::empty(),
    }
}

/// The string items of a list, in order, as they are.
pub open spec fn string_items(items: Seq<Option<String>>) -> Seq<Seq<char>>
    decreases items.len(),
{
    if items.len() == 0 {
        Seq::empty()
    } else {
        let rest = string_items(items.drop_last());
        match items.last() {
            Some(s) => rest.push(s@),
            None => rest,
        }
    }
}

/// The string items of a list field; nothing for any other value.
pub open spec fn field_strings(v: ModelValue) -> Seq<Seq<char>> {
    match v {
        ModelValue::List(items) => string_items(items@),
        _ => Seq::empty(),
    }
}

/// `value.as_str().unwrap_or("")`.
pub fn read_text(value: &ModelValue) -> (r: String)
    ensures
        r@ == field_text(*value),
{
    match value {
        ModelValue::Text(s) => s.clone(),
        _ => String::new(),
    }
}

/// The string items of an array (`filter_map(as_str)`), or nothing.
pub fn read_strings(value: &ModelValue) -> (r: Vec<String>)
    ensures
        string_views(r@) == field_strings(*value),
{
    match value {
        ModelValue::List(items) => {
            let mut out: Vec<String> = Vec::new();
            let mut i: usize = 0;
            while i < items.len()
                invariant
                    i <= items.len(),
                    string_views(out@) == string_items(items@.take(i as int)),
                decreases items.len() - i,
            {
                assert(items@.take(i + 1).drop_last() == items@.take(i as int));
                match &items[i] {
                    Some(s) => out.push(s.clone()),
                    None => {},
                }
                i = i + 1;
            }
            assert(items@.take(items.len() as int) == items@);
            out
        },
        _ => Vec::new(),
    }
}

} // verus!
