//! Types that are made from the application's state by a derive.
use vstd::prelude::*;

use crate::macros::registry::unraw_name;
#[allow(unused_imports)]
use crate::macros::registry::unraw;
use crate::macros::SyntaxError;
use crate::text::same_text;
#[allow(unused_imports)]
use crate::text::string_texts;

verus! {

/// The layout of a type.
#[derive(Debug)]
pub enum Layout {
    /// A struct with these named fields.
    Named(Vec<String>),
    /// A tuple or unit struct.
    Unnamed,
    /// An enum or a union.
    NotAStruct,
}

/// Whether one of the fields is named `state`.
pub open spec fn has_state(fields: Seq<Seq<char>>) -> bool {
    exists|i: int| 0 <= i < fields.len() && unraw(#[trigger] fields[i]) == "state"@
}

/// Why a type of this layout cannot be made from a state.
pub open spec fn layout_fault(layout: Layout) -> Option<Seq<char>> {
    match layout {
        Layout::NotAStruct => Some(
            "FromState can only be derived for a struct with one named state field"@,
        ),
        Layout::Unnamed => Some(
            "FromState requires a named state field; implement FromState manually for tuple or unit structs"@,
        ),
        Layout::Named(fields) => if !has_state(string_texts(fields@)) {
            Some(
                "FromState requires a field named state; implement FromState manually for other layouts"@,
            )
        } else if fields@.len() != 1 {
            Some(
                "FromState requires state to be the only field; implement FromState manually to initialize additional fields"@,
            )
        } else {
            None
        },
    }
}

/// Checks that a type can be made from a state, and gives the field that holds it.
pub fn expand_derive(layout: &Layout) -> (outcome: Result<&String, SyntaxError>)
    ensures
        match outcome {
            Ok(field) => {
                &&& layout_fault(*layout) is None
                &&& *layout matches Layout::Named(fields)
                &&& *field == fields@[0]
                &&& unraw(field@) == "state"@
            },
            Err(error) => layout_fault(*layout) == Some(error@),
        },
{
    match layout {
        Layout::NotAStruct => Err(
            SyntaxError::of("FromState can only be derived for a struct with one named state field"),
        ),
        Layout::Unnamed => Err(
            SyntaxError::of(
                "FromState requires a named state field; implement FromState manually for tuple or unit structs",
            ),
        ),
        Layout::Named(fields) => {
            let ghost names = string_texts(fields@);
            let mut found = false;
            let mut i: usize = 0;
            while i < fields.len()
                invariant
                    0 <= i <= fields@.len(),
                    names == string_texts(fields@),
                    found ==> has_state(names),
                    !found ==> forall|j: int| 0 <= j < i ==> unraw(#[trigger] names[j]) != "state"@,
                decreases fields@.len() - i,
            {
                assert(names[i as int] == fields@[i as int]@);
                if same_text(unraw_name(fields[i].as_str()), "state") {
                    found = true;
                }
                i += 1;
            }
            if !found {
                return Err(
                    SyntaxError::of(
                        "FromState requires a field named state; implement FromState manually for other layouts",
                    ),
                );
            }
            if fields.len() != 1 {
                return Err(
                    SyntaxError::of(
                        "FromState requires state to be the only field; implement FromState manually to initialize additional fields",
                    ),
                );
            }
            assert(names[0] == fields@[0]@);
            Ok(&fields[0])
        },
    }
}

} // verus!
