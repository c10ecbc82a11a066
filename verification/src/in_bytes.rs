//! A number of bytes, shown with its unit.
use vstd::prelude::*;
use vstd::std_specs::convert::FromSpecImpl;

use crate::text::{digits, push_char, push_digits};

verus! {

/// A number of bytes.
#[derive(Debug, Clone, Copy, PartialEq, Eq, Structural)]
pub struct InBytes(pub u64);

impl From<u64> for InBytes {
    fn from(value: u64) -> (r: InBytes) {
        InBytes(value)
    }
}

impl FromSpecImpl<u64> for InBytes {
    open spec fn obeys_from_spec() -> bool {
        true
    }

    open spec fn from_spec(value: u64) -> InBytes {
        InBytes(value)
    }
}

impl InBytes {
    /// The number in decimal, followed by ` bytes`.
    pub fn to_debug_string(&self) -> (r: String)
        ensures
            r@ == digits(self.0 as nat, 10) + seq![' ', 'b', 'y', 't', 'e', 's'],
    {
        let mut s = String::new();
        push_digits(&mut s, self.0, 10);
        push_char(&mut s, ' ');
        push_char(&mut s, 'b');
        push_char(&mut s, 'y');
        push_char(&mut s, 't');
        push_char(&mut s, 'e');
        push_char(&mut s, 's');
        assert(s@ =~= digits(self.0 as nat, 10) + seq![' ', 'b', 'y', 't', 'e', 's']);
        s
    }
}

} // verus!
