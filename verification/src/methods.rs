//! The standard methods and their bits.
use vstd::prelude::*;

#[allow(unused_imports)]
use crate::text::{glued, lemma_glued_push};
use crate::text::same_text;

verus! {

/// The name of the standard method whose bit is `1 << index`.
pub open spec fn method_at(index: int) -> Seq<char> {
    if index == 0 {
        "DELETE"@
    } else if index == 1 {
        "GET"@
    } else if index == 2 {
        "HEAD"@
    } else if index == 3 {
        "OPTIONS"@
    } else if index == 4 {
        "PATCH"@
    } else if index == 5 {
        "POST"@
    } else {
        "PUT"@
    }
}

/// The bit of the standard method with this index.
pub open spec fn bit_at(index: int) -> u16 {
    if index == 0 {
        1
    } else if index == 1 {
        2
    } else if index == 2 {
        4
    } else if index == 3 {
        8
    } else if index == 4 {
        16
    } else if index == 5 {
        32
    } else {
        64
    }
}

/// Whether `methods` holds the standard method with this index.
pub open spec fn has_method(methods: u16, index: int) -> bool {
    methods & bit_at(index) != 0
}

/// The names of those of the first `count` standard methods that `methods` holds.
pub open spec fn method_names(methods: u16, count: int) -> Seq<Seq<char>>
    decreases count,
{
    if count <= 0 {
        Seq::empty()
    } else if has_method(methods, count - 1) {
        method_names(methods, count - 1).push(method_at(count - 1))
    } else {
        method_names(methods, count - 1)
    }
}

/// The names of the standard methods in `methods`, in alphabetical order.
pub open spec fn method_list_text(methods: u16) -> Seq<char> {
    glued(method_names(methods, 7), ", "@)
}

/// The bit of a method name; zero for a name that is no standard method.
pub open spec fn bit_of(name: Seq<char>) -> u16 {
    if name == "DELETE"@ {
        1
    } else if name == "GET"@ {
        2
    } else if name == "HEAD"@ {
        4
    } else if name == "OPTIONS"@ {
        8
    } else if name == "PATCH"@ {
        16
    } else if name == "POST"@ {
        32
    } else if name == "PUT"@ {
        64
    } else {
        0
    }
}

pub fn bit_of_index(index: usize) -> (bit: u16)
    requires
        index < 7,
    ensures
        bit == bit_at(index as int),
{
    if index == 0 {
        1
    } else if index == 1 {
        2
    } else if index == 2 {
        4
    } else if index == 3 {
        8
    } else if index == 4 {
        16
    } else if index == 5 {
        32
    } else {
        64
    }
}

pub fn name_of_index(index: usize) -> (name: &'static str)
    requires
        index < 7,
    ensures
        name@ == method_at(index as int),
{
    if index == 0 {
        "DELETE"
    } else if index == 1 {
        "GET"
    } else if index == 2 {
        "HEAD"
    } else if index == 3 {
        "OPTIONS"
    } else if index == 4 {
        "PATCH"
    } else if index == 5 {
        "POST"
    } else {
        "PUT"
    }
}

/// The bit of a method name; zero for a name that is no standard method.
pub fn bit_of_name(name: &str) -> (bit: u16)
    ensures
        bit == bit_of(name@),
{
    if same_text(name, "DELETE") {
        1
    } else if same_text(name, "GET") {
        2
    } else if same_text(name, "HEAD") {
        4
    } else if same_text(name, "OPTIONS") {
        8
    } else if same_text(name, "PATCH") {
        16
    } else if same_text(name, "POST") {
        32
    } else if same_text(name, "PUT") {
        64
    } else {
        0
    }
}

/// The names of the standard methods in `methods`, separated by `", "`.
pub fn method_list(methods: u16) -> (list: String)
    ensures
        list@ == method_list_text(methods),
{
    let mut list = String::new();
    let mut empty = true;
    let mut index: usize = 0;
    while index < 7
        invariant
            0 <= index <= 7,
            list@ == glued(method_names(methods, index as int), ", "@),
            empty == (method_names(methods, index as int).len() == 0),
        decreases 7 - index,
    {
        if methods & bit_of_index(index) != 0 {
            proof {
                lemma_glued_push(
                    method_names(methods, index as int),
                    method_at(index as int),
                    ", "@,
                );
            }
            if !empty {
                list.append(", ");
            }
            list.append(name_of_index(index));
            empty = false;
            assert(list@ =~= glued(method_names(methods, index + 1), ", "@));
        }
        index += 1;
    }
    list
}

} // verus!
