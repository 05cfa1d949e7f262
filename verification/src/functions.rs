use crate::Error;
use crate::ExecutionResult;
use crate::execute::Executed;
use crate::execute::UnexecutedCircuit;
use crate::execute::executes;
use crate::input::IO;
use crate::input::values_in_order;
use crate::ivc::IVCProgram;
use crate::load::Circuit;
use crate::load::Program;
use crate::load::UnsupportedProgramError;
use crate::load::check_supported;
use crate::load::supported;
use crate::program::CircuitStructure;
use crate::program::structure_of;
use crate::witness::Witness;
use vstd::prelude::*;

verus! {

/// What one step of a chain hands to the caller: its result, its expanded
/// witness, and the public input of the step after.
pub type StepOutput = (ExecutionResult, Witness, IO);

/// The one function of a program that can be turned into a folding
/// circuit. Fails where the program cannot.
pub fn load_circuit(program: Program) -> (r: Result<Circuit, Error>)
    ensures
        match r {
            Ok(circuit) => supported(program, Ok(())) && circuit == program.functions@[0],
            Err(Error::UnsupportedProgram(e)) => supported(program, Err(e)),
            Err(_) => false,
        },
{
    match check_supported(&program) {
        Ok(()) => {},
        Err(e) => {
            return Err(Error::UnsupportedProgram(e));
        },
    }
    let mut functions = program.functions;
    match functions.pop() {
        Some(circuit) => Ok(circuit),
        None => Err(Error::UnsupportedProgram(UnsupportedProgramError::MultipleFunctions(0))),
    }
}

/// Turns a circuit into its structure and its program description.
pub fn compile(noir_circuit: &Circuit) -> (r: Result<(CircuitStructure, IVCProgram), Error>)
    ensures
        match r {
            Ok((structure, program)) => structure_of(*noir_circuit, Ok(structure))
                && structure.program_of(Ok(program)),
            Err(e) => structure_of(*noir_circuit, Err(e)) || exists|structure: CircuitStructure|
                structure_of(*noir_circuit, Ok(structure)) && #[trigger] structure.program_of(
                    Err(e),
                ),
        },
{
    let structure = match CircuitStructure::from_circuit(noir_circuit) {
        Ok(s) => s,
        Err(e) => {
            return Err(e);
        },
    };
    match structure.compile() {
        Ok(program) => Ok((structure, program)),
        Err(e) => {
            proof {
                assert(structure.program_of(Err(e)));
            }
            Err(e)
        },
    }
}

/// The circuit before step `i` of a chain that started from `start` and
/// has run as `runs` says.
pub open spec fn state_before(
    start: UnexecutedCircuit,
    runs: Seq<Result<Executed, Error>>,
    i: int,
) -> UnexecutedCircuit {
    if i == 0 {
        start
    } else {
        runs[i - 1]->Ok_0.2
    }
}

/// Whether `output` is what the caller gets of the step that ended as `run`
/// says: its result, its expanded witness and, in the order of their
/// identifiers, the values of the public input of the step after; or its
/// failure.
pub open spec fn hands_out(run: Result<Executed, Error>, output: Result<StepOutput, Error>) -> bool {
    match (run, output) {
        (Ok((result, witness, next)), Ok((given_result, given_witness, next_input))) => {
            &&& given_result == result
            &&& given_witness == witness
            &&& next_input@ == values_in_order(next.public_input@)
        },
        (Err(e), Err(given)) => given == e,
        _ => false,
    }
}

/// Whether `outputs` is what a chain from `start` over `private_inputs`
/// hands out, with `runs` as the steps that it ran. Each step starts from
/// the circuit that the step before left; there is one step for each
/// private input up to the first that fails, and none after it.
pub open spec fn is_chain(
    start: UnexecutedCircuit,
    private_inputs: Seq<Witness>,
    runs: Seq<Result<Executed, Error>>,
    outputs: Seq<Result<StepOutput, Error>>,
) -> bool {
    &&& runs.len() == outputs.len()
    &&& runs.len() <= private_inputs.len()
    &&& forall|i: int|
        0 <= i < runs.len() ==> executes(
            state_before(start, runs, i),
            private_inputs[i]@,
            #[trigger] runs[i],
        ) && hands_out(runs[i], outputs[i])
    &&& forall|i: int| 0 <= i < runs.len() - 1 ==> (#[trigger] runs[i]) is Ok
    &&& runs.len() < private_inputs.len() ==> runs.len() > 0 && runs.last() is Err
}

/// Runs a chain of steps, one for each private input in order, from the
/// first public input and the step number `start_step_num`. Each step
/// takes the public input that the step before has fed forward. The chain
/// stops at the first step that fails, and that failure is the last thing
/// handed out.
pub fn execute_steps(
    circuit: CircuitStructure,
    first_public_input: Witness,
    start_step_num: u64,
    private_inputs: Vec<Witness>,
) -> (outputs: Vec<Result<StepOutput, Error>>)
    requires
        first_public_input.wf(),
        forall|i: int| 0 <= i < circuit.gates@.len() ==> (#[trigger] circuit.gates@[i])@.wf(),
        forall|i: int| 0 <= i < private_inputs@.len() ==> (#[trigger] private_inputs@[i]).wf(),
        start_step_num + private_inputs@.len() <= u64::MAX,
    ensures
        exists|runs: Seq<Result<Executed, Error>>|
            is_chain(
                UnexecutedCircuit {
                    iteration_number: start_step_num,
                    public_input: first_public_input,
                    structure: circuit,
                },
                private_inputs@,
                runs,
                outputs@,
            ),
{
    let mut state = UnexecutedCircuit::new(start_step_num, first_public_input, circuit);
    let ghost start = state;
    let ghost mut runs: Seq<Result<Executed, Error>> = Seq::empty();
    let mut outputs: Vec<Result<StepOutput, Error>> = Vec::new();
    let mut i: usize = 0;
    while i < private_inputs.len()
        invariant
            i <= private_inputs.len(),
            start_step_num + private_inputs@.len() <= u64::MAX,
            start == (UnexecutedCircuit {
                iteration_number: start_step_num,
                public_input: first_public_input,
                structure: circuit,
            }),
            forall|i: int| 0 <= i < private_inputs@.len() ==> (#[trigger] private_inputs@[i]).wf(),
            state.wf(),
            state.iteration_number == start_step_num + i,
            state == state_before(start, runs, i as int),
            runs.len() == i,
            outputs@.len() == i,
            forall|j: int|
                0 <= j < i ==> executes(
                    state_before(start, runs, j),
                    private_inputs@[j]@,
                    #[trigger] runs[j],
                ) && hands_out(runs[j], outputs@[j]) && runs[j] is Ok,
        decreases private_inputs.len() - i,
    {
        let private_input = private_inputs[i].clone();
        let ghost before = state;
        let ghost earlier = runs;
        let run = state.execute(private_input);
        proof {
            runs = earlier.push(run);
            assert forall|j: int| 0 <= j <= i implies state_before(start, runs, j)
                == state_before(start, earlier, j) by {
                if 0 < j {
                    assert(runs[j - 1] == earlier[j - 1]);
                }
            }
        }
        match run {
            Ok((result, witness, next)) => {
                let next_input = IO::from_witness(&next.public_input);
                outputs.push(Ok((result, witness, next_input)));
                state = next;
                proof {
                    assert(state.structure@ == before.structure@);
                    assert forall|k: int| 0 <= k < state.structure.gates@.len() implies (
                    #[trigger] state.structure.gates@[k])@.wf() by {
                        assert(state.structure@.gates[k] == before.structure@.gates[k]);
                        assert(before.structure.gates@[k]@.wf());
                    }
                }
            },
            Err(e) => {
                outputs.push(Err(e));
                proof {
                    assert(is_chain(start, private_inputs@, runs, outputs@));
                }
                return outputs;
            },
        }
        i += 1;
    }
    proof {
        assert(is_chain(start, private_inputs@, runs, outputs@));
    }
    outputs
}

} // verus!
