//! Recognition of the unknown-field-store marker on a message struct field.
//!
//! A message struct marks exactly one field as its unknown-field store.  At
//! build time the code generator hands each field's attribute names to
//! [`Field::new`], which decides whether the field is the store: exactly one
//! attribute must be present, and it must be the `unknown_field_set` marker.
//! The generator then splices the store's encode, merge, length and clear
//! operations into the generated message implementation; that splicing is
//! plain token pasting and stays outside this runtime core.

use vstd::prelude::*;

verus! {

/// The marker denoting a struct field as the message's unknown-field store.
#[derive(Clone, Debug, PartialEq, Eq, Structural)]
pub struct Field;

/// Whether two strings hold the same characters.
fn str_equals(a: &str, b: &str) -> (r: bool)
    ensures
        r <==> a@ == b@,
{
    let la = a.unicode_len();
    let lb = b.unicode_len();
    if la != lb {
        proof {
            assert(a@.len() != b@.len());
        }
        return false;
    }
    let mut i: usize = 0;
    while i < la
        invariant
            i <= la,
            la == a@.len(),
            la == b@.len(),
            forall|j: int| 0 <= j < i ==> a@[j] == b@[j],
        decreases la - i,
    {
        if a.get_char(i) != b.get_char(i) {
            return false;
        }
        i = i + 1;
    }
    proof {
        assert(a@ =~= b@);
    }
    true
}

impl Field {
    /// Decides whether a struct field bearing the given attribute names is
    /// the unknown-field store.  Exactly one attribute must be present —
    /// anything else is an invalid marker — and the field is the store
    /// exactly when that attribute is `unknown_field_set`.
    pub fn new(attrs: &Vec<String>) -> (r: Result<Option<Field>, String>)
        ensures
            attrs@.len() != 1 <==> r is Err,
            attrs@.len() == 1 ==> ((r matches Ok(o) && o is Some) <==> attrs@[0]@
                == "unknown_field_set"@),
            attrs@.len() == 1 ==> ((r matches Ok(o) && o is None) <==> attrs@[0]@
                != "unknown_field_set"@),
    {
        if attrs.len() != 1 {
            return Err("invalid format for unknown_field_set annotation".to_string());
        }
        if str_equals(attrs[0].as_str(), "unknown_field_set") {
            Ok(Some(Field))
        } else {
            Ok(None)
        }
    }
}

} // verus!
