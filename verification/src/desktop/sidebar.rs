//! The sidebar's list of files.
use crate::desktop::palette::{lowercase, to_lower};
use crate::text::{
    is_less, law_text_order_first_difference, law_text_order_total, law_text_order_transitive,
    same_text, text_less,
};
use vstd::prelude::*;

verus! {

/// An entry of a directory.
#[derive(Debug, PartialEq, Eq)]
pub struct SidebarEntry {
    pub is_dir: bool,
    pub name: String,
}

/// How two entries stand to each other.
#[derive(Debug, Clone, Copy, PartialEq, Eq, Structural)]
pub enum EntryOrder {
    Smaller,
    Equal,
    Larger,
}

/// How two entries stand to each other, by whether they are directories and
/// by their names in small letters: directories first, then by name.
pub open spec fn entry_order(
    a_dir: bool,
    a_name: Seq<char>,
    b_dir: bool,
    b_name: Seq<char>,
) -> EntryOrder {
    if a_dir != b_dir {
        if a_dir {
            EntryOrder::Smaller
        } else {
            EntryOrder::Larger
        }
    } else if a_name == b_name {
        EntryOrder::Equal
    } else if text_less(a_name, b_name) {
        EntryOrder::Smaller
    } else {
        EntryOrder::Larger
    }
}

/// How two entries stand to each other, by whether they are directories and
/// by their names in small letters.
pub fn order_by_name(a_dir: bool, a_name: &str, b_dir: bool, b_name: &str) -> (r: EntryOrder)
    ensures
        r == entry_order(a_dir, a_name@, b_dir, b_name@),
{
    if a_dir != b_dir {
        if a_dir {
            EntryOrder::Smaller
        } else {
            EntryOrder::Larger
        }
    } else if same_text(a_name, b_name) {
        EntryOrder::Equal
    } else if is_less(a_name, b_name) {
        EntryOrder::Smaller
    } else {
        EntryOrder::Larger
    }
}

/// How two entries stand to each other in the list.
pub fn order_entries(a: &SidebarEntry, b: &SidebarEntry) -> (r: EntryOrder)
    ensures
        r == entry_order(a.is_dir, lowercase(a.name@), b.is_dir, lowercase(b.name@)),
{
    let a_name = to_lower(a.name.as_str());
    let b_name = to_lower(b.name.as_str());
    order_by_name(a.is_dir, a_name.as_str(), b.is_dir, b_name.as_str())
}

/// The icon of an entry.
pub fn icon_name(is_dir: bool) -> (r: &'static str)
    ensures
        r@ == (if is_dir {
            "folder-symbolic"@
        } else {
            "text-x-generic-symbolic"@
        }),
{
    if is_dir {
        "folder-symbolic"
    } else {
        "text-x-generic-symbolic"
    }
}

/// The order of the list is an order: turned round it is the other way, and
/// it is transitive.
pub proof fn law_entry_order(
    a_dir: bool,
    a: Seq<char>,
    b_dir: bool,
    b: Seq<char>,
    c_dir: bool,
    c: Seq<char>,
)
    ensures
        entry_order(a_dir, a, b_dir, b) is Smaller <==> entry_order(b_dir, b, a_dir, a) is Larger,
        entry_order(a_dir, a, b_dir, b) is Equal <==> a_dir == b_dir && a == b,
        entry_order(a_dir, a, b_dir, b) is Smaller && entry_order(b_dir, b, c_dir, c) is Smaller
            ==> entry_order(a_dir, a, c_dir, c) is Smaller,
{
    law_text_order_total(a, b);
    law_text_order_total(b, a);
    law_text_order_total(a, c);
    if text_less(a, b) && text_less(b, c) {
        law_text_order_transitive(a, b, c);
    }
}

/// Every directory stands before every file. Of two of a kind, the one whose
/// name begins the other's stands first, and else the one with the lesser
/// letter where the names first differ.
pub proof fn law_list_order(
    dir: bool,
    a: Seq<char>,
    b: Seq<char>,
    x: char,
    y: char,
    rest: Seq<char>,
)
    ensures
        entry_order(true, a, false, b) == EntryOrder::Smaller,
        entry_order(false, a, true, b) == EntryOrder::Larger,
        entry_order(dir, a, dir, a.push(x) + rest) == EntryOrder::Smaller,
        x < y ==> entry_order(dir, a.push(x) + rest, dir, a.push(y) + b) == EntryOrder::Smaller,
        x < y ==> entry_order(dir, a.push(y) + b, dir, a.push(x) + rest) == EntryOrder::Larger,
{
    let longer = a.push(x) + rest;
    let other = a.push(y) + b;
    assert(longer.len() > a.len());
    assert(longer[a.len() as int] == x && other[a.len() as int] == y);
    law_text_order_first_difference(a, x, y, rest, b);
}

} // verus!
