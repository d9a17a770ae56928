//! Interrupt vectors: where the two PICs deliver their lines and which
//! handler each populated slot of the descriptor table gets.
use vstd::prelude::*;

verus! {

/// The vector of the first line of the primary PIC.
pub const PIC_1_OFFSET: u8 = 32;

/// The vector of the first line of the secondary PIC.
pub const PIC_2_OFFSET: u8 = 40;

/// The interrupt stack table slot that the double-fault handler runs on.
pub const DOUBLE_FAULT_IST_INDEX: u16 = 0;

/// The number of slots in the interrupt descriptor table.
pub const IDT_ENTRIES: usize = 256;

/// The hardware interrupts that the kernel handles.
#[derive(Clone, Copy, PartialEq, Eq, Structural, Debug)]
pub enum InterruptIndex {
    Timer,
    Keyboard,
}

impl InterruptIndex {
    pub open spec fn spec_vector(self) -> u8 {
        match self {
            InterruptIndex::Timer => PIC_1_OFFSET,
            InterruptIndex::Keyboard => (PIC_1_OFFSET + 1) as u8,
        }
    }

    /// The vector of the interrupt.
    pub fn as_u8(self) -> (r: u8)
        ensures
            r == self.spec_vector(),
    {
        match self {
            InterruptIndex::Timer => PIC_1_OFFSET,
            InterruptIndex::Keyboard => PIC_1_OFFSET + 1,
        }
    }

    /// The vector of the interrupt, as a table index.
    pub fn as_usize(self) -> (r: usize)
        ensures
            r == self.spec_vector(),
    {
        self.as_u8() as usize
    }
}

/// The handlers that the descriptor table refers to.
#[derive(Clone, Copy, PartialEq, Eq, Structural, Debug)]
pub enum InterruptHandler {
    Breakpoint,
    DoubleFault,
    PageFault,
    Timer,
    Keyboard,
}

/// A populated slot: its handler, and the interrupt stack table slot to
/// switch to, if any.
#[derive(Clone, Copy, PartialEq, Eq, Structural, Debug)]
pub struct IdtEntry {
    pub handler: InterruptHandler,
    pub stack_index: Option<u16>,
}

/// What slot `v` of the descriptor table holds.
pub open spec fn idt_slot(v: int) -> Option<IdtEntry> {
    if v == 3 {
        Some(IdtEntry { handler: InterruptHandler::Breakpoint, stack_index: None })
    } else if v == 8 {
        Some(IdtEntry { handler: InterruptHandler::DoubleFault, stack_index: Some(DOUBLE_FAULT_IST_INDEX) })
    } else if v == 14 {
        Some(IdtEntry { handler: InterruptHandler::PageFault, stack_index: None })
    } else if v == PIC_1_OFFSET {
        Some(IdtEntry { handler: InterruptHandler::Timer, stack_index: None })
    } else if v == PIC_1_OFFSET + 1 {
        Some(IdtEntry { handler: InterruptHandler::Keyboard, stack_index: None })
    } else {
        None
    }
}

/// The contents of the descriptor table: breakpoint, double fault (on its
/// own stack), page fault, and the timer and keyboard lines of the PIC.
pub fn init_idt() -> (r: Vec<Option<IdtEntry>>)
    ensures
        r@.len() == IDT_ENTRIES,
        forall|v: int| 0 <= v < IDT_ENTRIES ==> #[trigger] r@[v] == idt_slot(v),
{
    let mut table: Vec<Option<IdtEntry>> = Vec::new();
    let mut v: usize = 0;
    while v < IDT_ENTRIES
        invariant
            v <= IDT_ENTRIES,
            table@.len() == v,
            forall|j: int| 0 <= j < v ==> #[trigger] table@[j] == None::<IdtEntry>,
        decreases IDT_ENTRIES - v,
    {
        table.push(None);
        v = v + 1;
    }
    table.set(3, Some(IdtEntry { handler: InterruptHandler::Breakpoint, stack_index: None }));
    table.set(
        8,
        Some(IdtEntry { handler: InterruptHandler::DoubleFault, stack_index: Some(DOUBLE_FAULT_IST_INDEX) }),
    );
    table.set(14, Some(IdtEntry { handler: InterruptHandler::PageFault, stack_index: None }));
    table.set(InterruptIndex::Timer.as_usize(), Some(IdtEntry { handler: InterruptHandler::Timer, stack_index: None }));
    table.set(
        InterruptIndex::Keyboard.as_usize(),
        Some(IdtEntry { handler: InterruptHandler::Keyboard, stack_index: None }),
    );
    assert forall|v: int| 0 <= v < IDT_ENTRIES implies #[trigger] table@[v] == idt_slot(v) by {}
    table
}

} // verus!
