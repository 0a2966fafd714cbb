use vstd::prelude::*;

verus! {

/// Bits of the first initialisation command word of an 8259 controller.
#[allow(non_camel_case_types)]
#[derive(Debug, Clone, Copy, PartialEq, Eq, Structural)]
pub enum ICW1 {
    ICW4_NOT_NEEDED,
    SINGLE_CASCADE_MODE,
    INTERVAL4,
    LEVEL_TRIGGERED_MODE,
    INIT,
}

impl ICW1 {
    pub open spec fn bits(self) -> u8 {
        match self {
            ICW1::ICW4_NOT_NEEDED => 0x01,
            ICW1::SINGLE_CASCADE_MODE => 0x02,
            ICW1::INTERVAL4 => 0x04,
            ICW1::LEVEL_TRIGGERED_MODE => 0x08,
            ICW1::INIT => 0x10,
        }
    }

    pub fn as_u8(self) -> (r: u8)
        ensures
            r == self.bits(),
    {
        match self {
            ICW1::ICW4_NOT_NEEDED => 0x01,
            ICW1::SINGLE_CASCADE_MODE => 0x02,
            ICW1::INTERVAL4 => 0x04,
            ICW1::LEVEL_TRIGGERED_MODE => 0x08,
            ICW1::INIT => 0x10,
        }
    }
}

/// Bits of the fourth initialisation command word of an 8259 controller.
#[allow(non_camel_case_types)]
#[derive(Debug, Clone, Copy, PartialEq, Eq, Structural)]
pub enum ICW4 {
    MODE_8086,
    AUTO_EOI,
    BUF_SLAVE,
    BUF_MASTER,
    SFNM,
}

impl ICW4 {
    pub open spec fn bits(self) -> u8 {
        match self {
            ICW4::MODE_8086 => 0x01,
            ICW4::AUTO_EOI => 0x02,
            ICW4::BUF_SLAVE => 0x08,
            ICW4::BUF_MASTER => 0x0C,
            ICW4::SFNM => 0x10,
        }
    }

    pub fn as_u8(self) -> (r: u8)
        ensures
            r == self.bits(),
    {
        match self {
            ICW4::MODE_8086 => 0x01,
            ICW4::AUTO_EOI => 0x02,
            ICW4::BUF_SLAVE => 0x08,
            ICW4::BUF_MASTER => 0x0C,
            ICW4::SFNM => 0x10,
        }
    }
}

} // verus!
