//! Runtime state: the tape, the cell pointer, and the modelled I/O capability.
//!
//! The input source is modelled as a byte sequence with a read position: a read
//! past its end is the host routine reporting failure.  The output sink is
//! modelled as a byte sequence with a capacity: a write beyond the capacity is
//! the host routine reporting failure.  The front end around the library maps
//! real byte streams onto these plain values.

use vstd::prelude::*;

verus! {

/// The mathematical model of a runtime state.
pub struct StateModel {
    pub tape: Seq<u8>,
    pub pointer: int,
    pub input: Seq<u8>,
    pub input_pos: int,
    pub output: Seq<u8>,
    pub sink_capacity: int,
}

impl StateModel {
    /// The pointer is within the tape, the read position within the input, and
    /// the output within what the sink accepts.
    pub open spec fn wf(self) -> bool {
        &&& 0 <= self.pointer < self.tape.len()
        &&& 0 <= self.input_pos <= self.input.len()
        &&& self.output.len() <= self.sink_capacity
    }

    /// The byte at the current pointer.
    pub open spec fn cell(self) -> u8 {
        self.tape[self.pointer]
    }

    /// The same state with the current cell replaced.
    pub open spec fn with_cell(self, v: u8) -> StateModel {
        StateModel { tape: self.tape.update(self.pointer, v), ..self }
    }
}

/// A runtime state: created once per execution and mutated only by the
/// currently running program.
pub struct State {
    pub tape: Vec<u8>,
    pub pointer: usize,
    pub input: Vec<u8>,
    pub input_pos: usize,
    pub output: Vec<u8>,
    pub sink_capacity: usize,
}

impl View for State {
    type V = StateModel;

    open spec fn view(&self) -> StateModel {
        StateModel {
            tape: self.tape@,
            pointer: self.pointer as int,
            input: self.input@,
            input_pos: self.input_pos as int,
            output: self.output@,
            sink_capacity: self.sink_capacity as int,
        }
    }
}

impl State {
    /// A fresh state: a zeroed tape, the pointer at zero, the given input with
    /// nothing read yet, an empty output, and a sink accepting that many bytes.
    pub fn new(tape_size: usize, input: Vec<u8>, sink_capacity: usize) -> (r: State)
        requires
            tape_size >= 1,
        ensures
            r@.tape.len() == tape_size,
            forall|j: int| 0 <= j < tape_size ==> r@.tape[j] == 0u8,
            r@.pointer == 0,
            r@.input == input@,
            r@.input_pos == 0,
            r@.output == Seq::<u8>::empty(),
            r@.sink_capacity == sink_capacity as int,
            r@.wf(),
    {
        let tape = vec![0u8; tape_size];
        State {
            tape,
            pointer: 0,
            input,
            input_pos: 0,
            output: Vec::new(),
            sink_capacity,
        }
    }

    /// Read one byte from the input source.  `None` is the host routine
    /// reporting failure: the input has reached an unrecoverable state.
    pub fn read_byte(&mut self) -> (r: Option<u8>)
        ensures
            old(self)@.input_pos < old(self)@.input.len() ==> {
                &&& r == Some(old(self)@.input[old(self)@.input_pos])
                &&& final(self)@ == StateModel {
                    input_pos: old(self)@.input_pos + 1,
                    ..old(self)@
                }
            },
            old(self)@.input_pos >= old(self)@.input.len() ==> {
                &&& r is None
                &&& final(self)@ == old(self)@
            },
    {
        if self.input_pos < self.input.len() {
            let b = self.input[self.input_pos];
            self.input_pos = self.input_pos + 1;
            Some(b)
        } else {
            None
        }
    }

    /// Write one byte to the output sink.  `false` is the host routine
    /// reporting failure: the sink accepts no more bytes.
    pub fn write_byte(&mut self, b: u8) -> (ok: bool)
        ensures
            old(self)@.output.len() < old(self)@.sink_capacity ==> {
                &&& ok
                &&& final(self)@ == StateModel {
                    output: old(self)@.output.push(b),
                    ..old(self)@
                }
            },
            old(self)@.output.len() >= old(self)@.sink_capacity ==> {
                &&& !ok
                &&& final(self)@ == old(self)@
            },
    {
        if self.output.len() < self.sink_capacity {
            self.output.push(b);
            true
        } else {
            false
        }
    }
}

/// What the cell holds after adding a signed delta with 8-bit wraparound.
pub open spec fn wrap_add(c: u8, d: i8) -> u8 {
    (((c as int) + (d as int)) % 256) as u8
}

/// Add a signed delta to a byte with 8-bit wraparound.
pub fn wrap_add_exec(c: u8, d: i8) -> (r: u8)
    ensures
        r == wrap_add(c, d),
{
    let s: i16 = (c as i16) + (d as i16);
    if s < 0 {
        (s + 256) as u8
    } else if s >= 256 {
        (s - 256) as u8
    } else {
        s as u8
    }
}

} // verus!
