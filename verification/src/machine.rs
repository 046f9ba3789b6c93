//! The state of the emulated machine that the display services work on.

use vstd::prelude::*;

use crate::heap::{GuestHeap, HeapState};
use crate::memory::{GuestMemory, Span};
use crate::rotation::Rotation;

verus! {

/// Where the firmware keeps what the display services share with the guest.
#[derive(Clone, Copy, Debug, PartialEq, Eq)]
pub struct Layout {
    /// The pixels of the frame buffer.
    pub screen_image: u32,
    /// The image header that stands for the frame buffer.
    pub screen_image_struct: u32,
    /// The slot that holds the address of the current image package.
    pub package_slot: u32,
}

/// A resource of the loaded archive.
#[derive(Debug)]
pub struct HostResource {
    pub name: String,
    pub data: Vec<u8>,
}

/// What a resource holds.
#[verifier::ext_equal]
pub struct ResourceState {
    pub name: Seq<char>,
    pub data: Seq<u8>,
}

impl View for HostResource {
    type V = ResourceState;

    open spec fn view(&self) -> ResourceState {
        ResourceState { name: self.name@, data: self.data@ }
    }
}

/// What a machine looks like.
#[verifier::ext_equal]
pub struct MachineState {
    pub memory: Map<u32, u8>,
    pub spans: Seq<Span>,
    pub registers: Seq<u32>,
    pub layout: Layout,
    pub heap: HeapState,
    pub rotation: Rotation,
    pub text_origin: (i32, i32),
    pub resources: Seq<ResourceState>,
    pub resource_data: Seq<u32>,
    pub app_image_package: u32,
    pub inner_image_package: u32,
    pub current_image_package: u32,
}

impl MachineState {
    /// The heap is in order and there are sixteen registers.
    pub open spec fn wf(self) -> bool {
        &&& self.heap.wf()
        &&& self.registers.len() == 16
    }

    /// The same machine with other memory contents.
    pub open spec fn with_memory(self, memory: Map<u32, u8>) -> MachineState {
        MachineState { memory, ..self }
    }

    /// The same machine with `value` returned to the guest.
    pub open spec fn with_result(self, value: u32) -> MachineState {
        MachineState { registers: self.registers.update(0, value), ..self }
    }

    /// The machine after a request for `size` bytes of heap.
    pub open spec fn after_request(self, size: u32) -> MachineState {
        MachineState { heap: self.heap.after_request(size), ..self }
    }

    /// The guest's stack pointer, register thirteen.
    pub open spec fn stack(self) -> u32 {
        self.registers[13]
    }
}

/// The emulated machine.
#[derive(Debug)]
pub struct NicaiMachine {
    pub memory: GuestMemory,
    pub registers: [u32; 16],
    pub layout: Layout,
    pub heap: GuestHeap,
    pub effective_rotation: Rotation,
    pub latched_text_origin: (i32, i32),
    pub resources: Vec<HostResource>,
    pub resource_data: Vec<u32>,
    pub app_image_package: u32,
    pub inner_image_package: u32,
    pub current_image_package: u32,
}

impl View for NicaiMachine {
    type V = MachineState;

    open spec fn view(&self) -> MachineState {
        MachineState {
            memory: self.memory@,
            spans: self.memory.spans(),
            registers: self.registers@,
            layout: self.layout,
            heap: self.heap@,
            rotation: self.effective_rotation,
            text_origin: self.latched_text_origin,
            resources: Seq::new(self.resources@.len(), |i: int| self.resources@[i]@),
            resource_data: self.resource_data@,
            app_image_package: self.app_image_package,
            inner_image_package: self.inner_image_package,
            current_image_package: self.current_image_package,
        }
    }
}

/// `armv4t_emu::reg::SP`: the number by which the processor core knows the stack pointer.
#[verifier::external_body]
fn stack_register() -> (index: u8)
    ensures
        index == 13,
{
    armv4t_emu::reg::SP
}

impl NicaiMachine {
    /// Memory and heap are in order.
    pub open spec fn wf(&self) -> bool {
        &&& self.memory.wf()
        &&& self@.wf()
    }

    /// A machine with all registers zero, no image package and the text origin at (0, 0).
    pub fn new(
        memory: GuestMemory,
        layout: Layout,
        heap: GuestHeap,
        rotation: Rotation,
        resources: Vec<HostResource>,
        resource_data: Vec<u32>,
    ) -> (machine: Self)
        requires
            memory.wf(),
            heap@.wf(),
        ensures
            machine.wf(),
            machine@ == (MachineState {
                memory: memory@,
                spans: memory.spans(),
                registers: Seq::new(16, |i: int| 0u32),
                layout,
                heap: heap@,
                rotation,
                text_origin: (0, 0),
                resources: Seq::new(resources@.len(), |i: int| resources@[i]@),
                resource_data: resource_data@,
                app_image_package: 0,
                inner_image_package: 0,
                current_image_package: 0,
            }),
    {
        let machine = NicaiMachine {
            memory,
            registers: [0; 16],
            layout,
            heap,
            effective_rotation: rotation,
            latched_text_origin: (0, 0),
            resources,
            resource_data,
            app_image_package: 0,
            inner_image_package: 0,
            current_image_package: 0,
        };
        assert(machine@.registers =~= Seq::new(16, |i: int| 0u32));
        machine
    }

    /// Reads a register.
    pub fn register(&self, index: u8) -> (value: u32)
        requires
            index < 16,
        ensures
            value == self@.registers[index as int],
    {
        self.registers[index as usize]
    }

    /// The guest's stack pointer.
    pub fn stack_pointer(&self) -> (value: u32)
        ensures
            value == self@.stack(),
    {
        self.register(stack_register())
    }

    /// Returns `value` to the guest.
    pub fn set_result(&mut self, value: u32)
        requires
            old(self).wf(),
        ensures
            final(self).wf(),
            final(self)@ == old(self)@.with_result(value),
    {
        self.registers[0] = value;
        assert(self@ =~= old(self)@.with_result(value));
    }

    /// Hands out heap memory to the guest; zero where there is no room.
    pub fn allocate(&mut self, size: u32) -> (address: u32)
        requires
            old(self).wf(),
        ensures
            final(self).wf(),
            address == old(self)@.heap.next_block(size),
            final(self)@ == old(self)@.after_request(size),
    {
        let address: u32 = self.heap.allocate(size);
        assert(self@ =~= old(self)@.after_request(size));
        address
    }
}

} // verus!
