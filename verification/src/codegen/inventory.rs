//! Handler names declared in Rust source by an `inventory_handlers!` invocation.

use crate::codegen::{parse_rust_file, rust_macro_items, rust_syntax_error};
use crate::parser::error::opt_view;
use crate::handler::HandlerSignature;
use crate::parser::values::{comma_items, parse_comma_separated};
use vstd::prelude::*;

verus! {

/// A macro invocation at the top level of a Rust file: the last segment of
/// the macro's path, and its tokens as they print.
#[derive(Debug, Clone, PartialEq)]
pub struct MacroItem {
    pub name: Option<String>,
    pub tokens: String,
}

/// The view of an item: the macro's last path segment and its tokens, or
/// none for an item that is not a macro invocation.
pub open spec fn macro_item_view(o: Option<MacroItem>) -> Option<(Option<Seq<char>>, Seq<char>)> {
    match o {
        Some(m) => Some((opt_view(m.name), m.tokens@)),
        None => None,
    }
}

pub open spec fn macro_items_view(s: Seq<Option<MacroItem>>) -> Seq<Option<(Option<Seq<char>>, Seq<char>)>> {
    s.map_values(|o: Option<MacroItem>| macro_item_view(o))
}

/// Whether an item is an `inventory_handlers!` invocation.
pub open spec fn is_inventory(item: Option<(Option<Seq<char>>, Seq<char>)>) -> bool {
    item matches Some(m) && m.0 == Some("inventory_handlers"@)
}

/// The handler names of a file's items: the comma-separated, trimmed,
/// non-empty pieces of the tokens of the first `inventory_handlers!`
/// invocation; none when there is no such invocation.
pub open spec fn inventory_names(items: Seq<Option<(Option<Seq<char>>, Seq<char>)>>) -> Seq<Seq<char>>
    decreases items.len(),
{
    if items.len() == 0 {
        Seq::empty()
    } else if is_inventory(items[0]) {
        comma_items(items[0]->Some_0.1)
    } else {
        inventory_names(items.drop_first())
    }
}

/// The handler names declared by the first `inventory_handlers!` invocation
/// among `items` (see `inventory_names`).
pub fn handler_names_from_items(items: &Vec<Option<MacroItem>>) -> (res: Vec<String>)
    ensures
        res@.map_values(|s: String| s@) == inventory_names(macro_items_view(items@)),
{
    let ghost v = macro_items_view(items@);
    let mut i: usize = 0;
    assert(v.subrange(0, v.len() as int) =~= v);
    while i < items.len()
        invariant
            i <= items@.len(),
            v == macro_items_view(items@),
            inventory_names(v) == inventory_names(v.subrange(i as int, v.len() as int)),
        decreases items.len() - i,
    {
        proof {
            let rest = v.subrange(i as int, v.len() as int);
            assert(rest.drop_first() =~= v.subrange(i + 1, v.len() as int));
            assert(rest[0] == macro_item_view(items@[i as int]));
        }
        if let Some(m) = &items[i] {
            if let Some(n) = &m.name {
                if crate::text::str_eq(n.as_str(), "inventory_handlers") {
                    return parse_comma_separated(m.tokens.as_str());
                }
            }
        }
        i = i + 1;
    }
    let res: Vec<String> = Vec::new();
    assert(res@.map_values(|s: String| s@) =~= Seq::<Seq<char>>::empty());
    res
}

/// The handler names declared in Rust source by an `inventory_handlers!`
/// invocation among its top-level items; none when the source does not parse.
pub fn extract_handler_names_from_source(source: &str) -> (res: Vec<String>)
    ensures
        rust_syntax_error(source@) is Some ==> res@.len() == 0,
        rust_syntax_error(source@) is None ==> res@.map_values(|s: String| s@) == inventory_names(
            rust_macro_items(source@),
        ),
{
    match parse_rust_file(source) {
        Err(_) => Vec::new(),
        Ok(items) => handler_names_from_items(&items),
    }
}

/// Signatures for handlers known only by name: no parameter, no command.
pub fn handler_signatures_from_names(names: &Vec<String>) -> (res: Vec<HandlerSignature>)
    ensures
        res@.len() == names@.len(),
        forall|i: int|
            0 <= i < res@.len() ==> (#[trigger] res@[i]).name@ == names@[i]@
                && res@[i].param_type is None && !res@[i].returns_command,
{
    let mut out: Vec<HandlerSignature> = Vec::new();
    let mut i: usize = 0;
    while i < names.len()
        invariant
            i <= names@.len(),
            out@.len() == i,
            forall|j: int|
                0 <= j < i ==> (#[trigger] out@[j]).name@ == names@[j]@ && out@[j].param_type is None
                    && !out@[j].returns_command,
        decreases names.len() - i,
    {
        out.push(HandlerSignature { name: names[i].clone(), param_type: None, returns_command: false });
        i = i + 1;
    }
    out
}

} // verus!
