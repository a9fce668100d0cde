//! Heap-allocated values.

use vstd::prelude::*;
use vstd::string::StringExecFns;

verus! {

#[derive(Debug)]
pub enum LoxObject {
    String(String),
}

impl LoxObject {
    /// The characters of a string object.
    pub open spec fn contents(&self) -> Seq<char> {
        match self {
            LoxObject::String(s) => s@,
        }
    }

    /// The object as printed: a string between double quotes.
    pub fn to_display_string(&self) -> (text: String)
        ensures
            text@ == seq!['"'] + self.contents() + seq!['"'],
    {
        proof {
            reveal_strlit("\"");
            assert("\""@ =~= seq!['"']);
        }
        match self {
            LoxObject::String(s) => String::from_str("\"").concat(s.as_str()).concat("\""),
        }
    }
}

/// Two objects are equal where their contents are.
pub fn objects_equal(left: &LoxObject, right: &LoxObject) -> (equal: bool)
    ensures
        equal == (left.contents() == right.contents()),
{
    match (left, right) {
        (LoxObject::String(left), LoxObject::String(right)) => *left == *right,
    }
}

} // verus!
