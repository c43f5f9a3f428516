//! Small bounded unsigned integers used by the packed wire forms.

use vstd::prelude::*;

verus! {

/// 3 bit unsigned integer.
#[derive(Copy, Clone, Debug)]
pub struct U3(u8);

impl U3 {
    pub closed spec fn spec_value(&self) -> u8 {
        self.0
    }

    pub closed spec fn wf(&self) -> bool {
        self.0 <= 7
    }

    /// Accepts exactly the values that fit in 3 bits.
    pub fn new(from: u8) -> (r: Option<Self>)
        ensures
            from <= 7 ==> (r matches Some(v) && v.spec_value() == from && v.wf()),
            from > 7 ==> r is None,
    {
        if from <= 7 {
            Some(U3(from))
        } else {
            None
        }
    }

    pub fn value(&self) -> (r: u8)
        requires
            self.wf(),
        ensures
            r == self.spec_value(),
            r <= 7,
    {
        self.0
    }
}

/// 4 bit unsigned integer.
#[derive(Copy, Clone, Debug)]
pub struct U4(u8);

impl U4 {
    pub closed spec fn spec_value(&self) -> u8 {
        self.0
    }

    pub closed spec fn wf(&self) -> bool {
        self.0 <= 15
    }

    /// Accepts exactly the values that fit in 4 bits.
    pub fn new(from: u8) -> (r: Option<Self>)
        ensures
            from <= 15 ==> (r matches Some(v) && v.spec_value() == from && v.wf()),
            from > 15 ==> r is None,
    {
        if from <= 15 {
            Some(U4(from))
        } else {
            None
        }
    }

    pub fn value(&self) -> (r: u8)
        requires
            self.wf(),
        ensures
            r == self.spec_value(),
            r <= 15,
    {
        self.0
    }
}

/// 6 bit unsigned integer.
#[derive(Copy, Clone, Debug)]
pub struct U6(u8);

impl U6 {
    pub closed spec fn spec_value(&self) -> u8 {
        self.0
    }

    pub closed spec fn wf(&self) -> bool {
        self.0 <= 63
    }

    /// Accepts exactly the values that fit in 6 bits.
    pub fn new(from: u8) -> (r: Option<Self>)
        ensures
            from <= 63 ==> (r matches Some(v) && v.spec_value() == from && v.wf()),
            from > 63 ==> r is None,
    {
        if from <= 63 {
            Some(U6(from))
        } else {
            None
        }
    }

    pub fn value(&self) -> (r: u8)
        requires
            self.wf(),
        ensures
            r == self.spec_value(),
            r <= 63,
    {
        self.0
    }
}

/// 7 bit unsigned integer shifted by +1: stores values `1..=128` in 7 bits.
#[derive(Copy, Clone, Debug)]
pub struct U7Sp1(u8);

impl U7Sp1 {
    pub closed spec fn spec_value(&self) -> u8 {
        (self.0 + 1) as u8
    }

    pub closed spec fn wf(&self) -> bool {
        self.0 <= 127
    }

    /// Accepts exactly `1..=128`, stored shifted down by one.
    pub fn new(from: u8) -> (r: Option<Self>)
        ensures
            1 <= from <= 128 ==> (r matches Some(v) && v.spec_value() == from && v.wf()),
            !(1 <= from <= 128) ==> r is None,
    {
        if from >= 1 && from <= 128 {
            Some(U7Sp1(from - 1))
        } else {
            None
        }
    }

    pub fn to_u8(&self) -> (r: u8)
        requires
            self.wf(),
        ensures
            r == self.spec_value(),
            1 <= r <= 128,
    {
        self.0 + 1
    }
}

} // verus!
