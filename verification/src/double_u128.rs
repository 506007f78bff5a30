//! A pair of amounts, one for each token of the pool.

use vstd::prelude::*;
use crate::pool::Tokens;

verus! {

/// Two amounts: the first belongs to token A, the second to token B.
#[derive(Clone, Copy, Debug)]
pub struct DoubleU128 {
    pub data: (u128, u128),
}

impl DoubleU128 {
    /// The amount at position `index` (0 or 1).
    pub open spec fn at(&self, index: int) -> u128 {
        if index == 0 {
            self.data.0
        } else {
            self.data.1
        }
    }

    /// The position of a token's amount: 0 for token A, 1 for token B.
    pub open spec fn position(token: Tokens) -> int {
        match token {
            Tokens::TokenA => 0,
            Tokens::TokenB => 1,
        }
    }

    /// Both amounts, token A's first.
    pub fn to_array(&self) -> (r: [u128; 2])
        ensures
            r@ == seq![self.data.0, self.data.1],
    {
        [self.data.0, self.data.1]
    }

    /// Puts `value` at position `index` and leaves the other amount.
    pub fn set(&mut self, index: usize, value: u128)
        requires
            index < 2,
        ensures
            final(self).at(index as int) == value,
            final(self).at(1 - index as int) == old(self).at(1 - index as int),
    {
        if index == 0 {
            self.data.0 = value;
        } else {
            self.data.1 = value;
        }
    }
}

impl core::ops::Index<usize> for DoubleU128 {
    type Output = u128;

    /// The amount at position `index`, which is 0 or 1.
    fn index(&self, index: usize) -> (r: &u128)
        ensures
            *r == self.at(index as int),
    {
        if index == 0 {
            &self.data.0
        } else {
            &self.data.1
        }
    }
}

impl vstd::std_specs::core::IndexSpecImpl<usize> for DoubleU128 {
    open spec fn index_req(&self, index: &usize) -> bool {
        *index < 2
    }
}

impl core::ops::Index<Tokens> for DoubleU128 {
    type Output = u128;

    /// The amount of `index`.
    fn index(&self, index: Tokens) -> (r: &u128)
        ensures
            *r == self.at(Self::position(index)),
    {
        match index {
            Tokens::TokenA => &self.data.0,
            Tokens::TokenB => &self.data.1,
        }
    }
}

impl core::ops::IndexMut<Tokens> for DoubleU128 {
    /// The place of the amount of `index`; the other amount stays.
    fn index_mut(&mut self, index: Tokens) -> (r: &mut u128)
        ensures
            *r == old(self).at(Self::position(index)),
            final(self).data == match index {
                Tokens::TokenA => (*final(r), old(self).data.1),
                Tokens::TokenB => (old(self).data.0, *final(r)),
            },
    {
        match index {
            Tokens::TokenA => &mut self.data.0,
            Tokens::TokenB => &mut self.data.1,
        }
    }
}

impl vstd::std_specs::core::IndexSpecImpl<Tokens> for DoubleU128 {
    open spec fn index_req(&self, index: &Tokens) -> bool {
        true
    }
}

impl core::convert::From<[u128; 2]> for DoubleU128 {
    fn from(value: [u128; 2]) -> (r: DoubleU128) {
        DoubleU128 { data: (value[0], value[1]) }
    }
}

impl vstd::std_specs::convert::FromSpecImpl<[u128; 2]> for DoubleU128 {
    open spec fn obeys_from_spec() -> bool {
        true
    }

    open spec fn from_spec(value: [u128; 2]) -> DoubleU128 {
        DoubleU128 { data: (value@[0], value@[1]) }
    }
}

impl core::convert::From<(u128, u128)> for DoubleU128 {
    fn from(data: (u128, u128)) -> (r: DoubleU128) {
        DoubleU128 { data }
    }
}

impl vstd::std_specs::convert::FromSpecImpl<(u128, u128)> for DoubleU128 {
    open spec fn obeys_from_spec() -> bool {
        true
    }

    open spec fn from_spec(data: (u128, u128)) -> DoubleU128 {
        DoubleU128 { data }
    }
}

impl Default for DoubleU128 {
    fn default() -> (r: DoubleU128)
        ensures
            r.data == (0u128, 0u128),
    {
        DoubleU128 { data: (0, 0) }
    }
}

} // verus!
