use vstd::prelude::*;

verus! {

/// The digits of one numeric literal, accumulated as they are read.
///
/// Its value is `sign * (whole_part + fraction_part / decimal_scale)`, where the
/// sign is negative when `is_negative` is set. The accumulators wrap around on
/// overflow.
#[derive(Debug, Clone, Copy, PartialEq, Eq, Structural)]
pub struct Operand {
    pub is_decimal: bool,
    pub is_negative: bool,
    pub initialized: bool,
    pub whole_part: i32,
    pub fraction_part: u32,
    pub decimal_scale: u32,
}

/// An operand before any digit was read.
pub open spec fn empty_operand() -> Operand {
    Operand {
        is_decimal: false,
        is_negative: false,
        initialized: false,
        whole_part: 0,
        fraction_part: 0,
        decimal_scale: 1,
    }
}

impl Operand {
    /// The operand after one more digit `d`.
    pub open spec fn with_digit(self, d: u32) -> Operand {
        if self.is_decimal {
            Operand {
                initialized: true,
                fraction_part: self.fraction_part.wrapping_mul(10).wrapping_add(d),
                decimal_scale: self.decimal_scale.wrapping_mul(10),
                ..self
            }
        } else {
            Operand {
                initialized: true,
                whole_part: self.whole_part.wrapping_mul(10).wrapping_add(d as i32),
                ..self
            }
        }
    }

    /// The operand after a decimal point.
    pub open spec fn with_point(self) -> Operand {
        Operand { is_decimal: true, ..self }
    }

    pub fn add_digit(&mut self, digit: u32)
        requires
            digit < 10,
        ensures
            *final(self) == old(self).with_digit(digit),
    {
        if self.is_decimal {
            self.fraction_part = self.fraction_part.wrapping_mul(10).wrapping_add(digit);
            self.decimal_scale = self.decimal_scale.wrapping_mul(10);
        } else {
            self.whole_part = self.whole_part.wrapping_mul(10).wrapping_add(digit as i32);
        }
        self.initialized = true;
    }
}

impl Default for Operand {
    fn default() -> (r: Self)
        ensures
            r == empty_operand(),
    {
        Operand {
            is_decimal: false,
            is_negative: false,
            initialized: false,
            whole_part: 0,
            fraction_part: 0,
            decimal_scale: 1,
        }
    }
}

} // verus!
