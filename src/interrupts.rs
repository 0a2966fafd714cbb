use vstd::prelude::*;

verus! {

/// First vector used by the primary interrupt controller.
pub const PIC_1_OFFSET: u8 = 32;

/// First vector used by the secondary interrupt controller.
pub const PIC_2_OFFSET: u8 = 40;

/// Hardware interrupt lines of the two chained controllers, in line order;
/// `Timer` is line 0 of the primary controller.
#[derive(Debug, Clone, Copy, PartialEq, Eq, Structural)]
pub enum InterruptIndex {
    Timer,
    Keyboard,
    Cascade,
    SerialPort2,
    SerialPort1,
    ParallelPort2,
    FloppyDisk,
    ParallelPort1,
    RealTimeClock,
    Acpi,
    Available1,
    Available2,
    Mouse,
    CoProcessor,
    PrimaryAta,
    SecondaryAta,
}

impl InterruptIndex {
    /// The line number, counted over both controllers.
    pub open spec fn line(self) -> nat {
        match self {
            InterruptIndex::Timer => 0,
            InterruptIndex::Keyboard => 1,
            InterruptIndex::Cascade => 2,
            InterruptIndex::SerialPort2 => 3,
            InterruptIndex::SerialPort1 => 4,
            InterruptIndex::ParallelPort2 => 5,
            InterruptIndex::FloppyDisk => 6,
            InterruptIndex::ParallelPort1 => 7,
            InterruptIndex::RealTimeClock => 8,
            InterruptIndex::Acpi => 9,
            InterruptIndex::Available1 => 10,
            InterruptIndex::Available2 => 11,
            InterruptIndex::Mouse => 12,
            InterruptIndex::CoProcessor => 13,
            InterruptIndex::PrimaryAta => 14,
            InterruptIndex::SecondaryAta => 15,
        }
    }

    /// The interrupt vector the line is delivered on.
    pub fn as_u8(self) -> (r: u8)
        ensures
            r == PIC_1_OFFSET + self.line(),
    {
        let line: u8 = match self {
            InterruptIndex::Timer => 0,
            InterruptIndex::Keyboard => 1,
            InterruptIndex::Cascade => 2,
            InterruptIndex::SerialPort2 => 3,
            InterruptIndex::SerialPort1 => 4,
            InterruptIndex::ParallelPort2 => 5,
            InterruptIndex::FloppyDisk => 6,
            InterruptIndex::ParallelPort1 => 7,
            InterruptIndex::RealTimeClock => 8,
            InterruptIndex::Acpi => 9,
            InterruptIndex::Available1 => 10,
            InterruptIndex::Available2 => 11,
            InterruptIndex::Mouse => 12,
            InterruptIndex::CoProcessor => 13,
            InterruptIndex::PrimaryAta => 14,
            InterruptIndex::SecondaryAta => 15,
        };
        PIC_1_OFFSET + line
    }

    /// The interrupt vector, as an index into the descriptor table.
    pub fn as_usize(self) -> (r: usize)
        ensures
            r == PIC_1_OFFSET + self.line(),
    {
        self.as_u8() as usize
    }
}

} // verus!
