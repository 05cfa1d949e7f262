use crate::constants::NOIR_VERSION_0_33;
use crate::gate::Opcode;
use crate::ivc::MalformedProgramError;
use crate::ivc::extract_io_spec;
use crate::program::extract_io;
use crate::sets::set_union;
use crate::witness::WitnessID;
use std::collections::BTreeSet;
use vstd::prelude::*;

verus! {

/// Why a program cannot be turned into a folding circuit.
#[derive(Debug, PartialEq, Eq)]
pub enum UnsupportedProgramError {
    /// The program does not have exactly one function; holds how many it has.
    MultipleFunctions(usize),
    /// The program has unconstrained functions; holds how many.
    UnconstrainedFunctions(usize),
    /// An opcode is not an assertion that an expression is zero; holds its text.
    NonAssertZeroOpcode(String),
    /// The roles of the circuit's identifiers do not fit a folding step.
    MalformedProgram(MalformedProgramError),
}

/// One function of a program: its opcodes and the identifiers through
/// which it takes its parameters and gives its results.
#[derive(Clone, Debug, PartialEq, Eq)]
pub struct Circuit {
    pub opcodes: Vec<Opcode>,
    /// The private inputs.
    pub private_parameters: BTreeSet<WitnessID>,
    /// The public inputs that the caller provides.
    pub public_parameters: BTreeSet<WitnessID>,
    /// The public inputs that the circuit computes.
    pub return_values: BTreeSet<WitnessID>,
}

impl Circuit {
    /// Every identifier that must have a value before the circuit can be
    /// solved: the private and the public parameters.
    pub fn circuit_arguments(&self) -> (r: BTreeSet<WitnessID>)
        ensures
            r@ == self.private_parameters@.union(self.public_parameters@),
    {
        set_union(&self.private_parameters, &self.public_parameters)
    }

    /// Every public identifier: the public parameters and the return values.
    pub fn public_inputs(&self) -> (r: BTreeSet<WitnessID>)
        ensures
            r@ == self.public_parameters@.union(self.return_values@),
    {
        set_union(&self.public_parameters, &self.return_values)
    }
}

/// A compiled program: its functions, and how many unconstrained functions
/// come with them.
#[derive(Clone, Debug, PartialEq, Eq)]
pub struct Program {
    pub functions: Vec<Circuit>,
    pub unconstrained_functions: usize,
}

/// Whether a program was compiled by the compiler version that is accepted.
pub fn is_supported_version(noir_version: &str) -> (ok: bool)
    ensures
        ok == (noir_version@ == NOIR_VERSION_0_33@),
{
    noir_version.to_owned() == NOIR_VERSION_0_33.to_owned()
}

/// Whether every opcode before place `i` asserts that an expression is
/// zero.
pub open spec fn supported_before(opcodes: Seq<Opcode>, i: int) -> bool {
    forall|j: int| 0 <= j < i ==> (#[trigger] opcodes[j]) is AssertZero
}

/// Whether `e` refuses the opcode at place `i` as the first that does not
/// assert that an expression is zero, with its text.
pub open spec fn refuses_opcode(opcodes: Seq<Opcode>, i: int, e: UnsupportedProgramError) -> bool {
    &&& 0 <= i < opcodes.len()
    &&& supported_before(opcodes, i)
    &&& match (opcodes[i], e) {
        (Opcode::Other(text), UnsupportedProgramError::NonAssertZeroOpcode(t)) => t@ == text@,
        _ => false,
    }
}

/// Whether `r` is what the check of a program gives. A program is refused
/// unless it has one function, no unconstrained function, no opcode but
/// assertions that an expression is zero, and an IO profile, taken without
/// private outputs, that can describe a step of a folding chain; the first
/// of these that fails is the one that is named.
pub open spec fn supported(program: Program, r: Result<(), UnsupportedProgramError>) -> bool {
    if program.functions@.len() != 1 {
        r == Err::<(), UnsupportedProgramError>(
            UnsupportedProgramError::MultipleFunctions(program.functions@.len() as usize),
        )
    } else if program.unconstrained_functions != 0 {
        r == Err::<(), UnsupportedProgramError>(
            UnsupportedProgramError::UnconstrainedFunctions(program.unconstrained_functions),
        )
    } else {
        let circuit = program.functions@[0];
        if !supported_before(circuit.opcodes@, circuit.opcodes@.len() as int) {
            match r {
                Ok(()) => false,
                Err(e) => exists|i: int| refuses_opcode(circuit.opcodes@, i, e),
            }
        } else {
            match extract_io_spec(
                circuit.private_parameters@.union(circuit.public_parameters@),
                circuit.public_parameters@.union(circuit.return_values@),
                circuit.return_values@,
                Set::empty(),
            ).structure_check() {
                Ok(()) => r is Ok,
                Err(e) => r == Err::<(), UnsupportedProgramError>(
                    UnsupportedProgramError::MalformedProgram(e),
                ),
            }
        }
    }
}

/// Checks that a program can be turned into a folding circuit.
pub fn check_supported(program: &Program) -> (r: Result<(), UnsupportedProgramError>)
    ensures
        supported(*program, r),
{
    let num_functions = program.functions.len();
    if num_functions != 1 {
        return Err(UnsupportedProgramError::MultipleFunctions(num_functions));
    }
    let num_unconstrained_functions = program.unconstrained_functions;
    if num_unconstrained_functions != 0 {
        return Err(UnsupportedProgramError::UnconstrainedFunctions(num_unconstrained_functions));
    }
    let circuit = &program.functions[0];
    let mut i: usize = 0;
    while i < circuit.opcodes.len()
        invariant
            i <= circuit.opcodes.len(),
            program.functions@.len() == 1,
            program.unconstrained_functions == 0,
            *circuit == program.functions@[0],
            supported_before(circuit.opcodes@, i as int),
        decreases circuit.opcodes.len() - i,
    {
        match &circuit.opcodes[i] {
            Opcode::AssertZero(_) => {},
            Opcode::Other(text) => {
                let e = UnsupportedProgramError::NonAssertZeroOpcode(text.clone());
                proof {
                    assert(refuses_opcode(circuit.opcodes@, i as int, e));
                    assert(!(circuit.opcodes@[i as int] is AssertZero));
                }
                return Err(e);
            },
        }
        i += 1;
    }
    let io = match extract_io(circuit, &BTreeSet::new()) {
        Ok(io) => io,
        Err(e) => {
            return Err(UnsupportedProgramError::MalformedProgram(e));
        },
    };
    match io.check_structure() {
        Ok(()) => Ok(()),
        Err(e) => Err(UnsupportedProgramError::MalformedProgram(e)),
    }
}

} // verus!
