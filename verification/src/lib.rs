use crate::ivc::ProgramError;
use crate::load::UnsupportedProgramError;
use crate::witness::Witness;
use vstd::prelude::*;

pub mod acir;
pub mod constants;
pub mod execute;
pub mod expansion;
pub mod field;
pub mod functions;
pub mod gate;
pub mod input;
pub mod ivc;
pub mod limbs;
pub mod load;
pub mod numeral;
pub mod ordered;
pub mod program;
pub mod r1cs;
pub mod sets;
pub mod soundness;
pub mod witness;

pub use crate::functions::compile;
pub use crate::functions::execute_steps;
pub use crate::functions::load_circuit;
pub use crate::program::CircuitStructure;

verus! {

/// Why an operation of this library failed.
#[derive(Debug, PartialEq, Eq)]
pub enum Error {
    /// The program is outside what can be turned into a folding circuit.
    UnsupportedProgram(UnsupportedProgramError),
    /// A field element could not be carried from one encoding to the other;
    /// holds the text that the target encoding refused.
    FieldConversionError(String),
    /// The inputs do not fit the circuit's IO profile.
    InvalidInput,
    /// A step or a program description could not be built.
    IVCProgramError(ProgramError),
    /// The solver stopped without a solution; holds its status.
    ACVMSolveError(String),
}

/// What one step of a chain has computed: the four parts of its solved
/// witness.
#[derive(Debug, PartialEq, Eq)]
pub struct ExecutionResult {
    pub iteration_number: u64,
    pub public_input: Witness,
    pub private_input: Witness,
    pub public_output: Witness,
    pub private_output: Witness,
}

impl Clone for ExecutionResult {
    fn clone(&self) -> (r: Self)
        ensures
            r.iteration_number == self.iteration_number,
            r.public_input@ == self.public_input@,
            r.private_input@ == self.private_input@,
            r.public_output@ == self.public_output@,
            r.private_output@ == self.private_output@,
    {
        ExecutionResult {
            iteration_number: self.iteration_number,
            public_input: self.public_input.clone(),
            private_input: self.private_input.clone(),
            public_output: self.public_output.clone(),
            private_output: self.private_output.clone(),
        }
    }
}


} // verus!
