use crate::r1cs::ConstraintView;
use crate::r1cs::R1CSConstraint;
use crate::r1cs::constraints_view;
use crate::witness::Witness;
use crate::witness::WitnessID;
use std::collections::BTreeSet;
use vstd::prelude::*;

verus! {

/// The version that a program description carries.
pub const VERSION_0_1: &'static str = "0.1";

/// Why an IO profile cannot describe a step of a folding chain.
#[derive(Clone, Copy, Debug, PartialEq, Eq, Structural)]
pub enum MalformedProgramError {
    /// A private output is not among the values that the circuit returns.
    PrivateOutputNotReturned,
    /// There is no public input to carry state from one step to the next.
    NoPublicInput,
    /// The public outputs cannot be fed back one for one into the public inputs.
    PublicInputOutputMismatch,
}

/// Why a step or a program description could not be built.
#[derive(Clone, Copy, Debug, PartialEq, Eq, Structural)]
pub enum ProgramError {
    /// An identifier that was looked up has no value.
    MissingWitness(WitnessID),
    /// The identifiers in use are not `0, 1, .., n - 1`.
    SparseWitnessIds,
    /// More identifiers are needed than a `u32` can count.
    TooManyWitnesses,
}

/// The role of each witness identifier that a circuit shares with its caller.
#[derive(Debug, PartialEq, Eq)]
pub struct IOProfile {
    pub public_inputs: BTreeSet<WitnessID>,
    pub private_inputs: BTreeSet<WitnessID>,
    pub public_outputs: BTreeSet<WitnessID>,
    pub private_outputs: BTreeSet<WitnessID>,
}

/// The four sets of an IO profile.
pub struct IOProfileView {
    pub public_inputs: Set<WitnessID>,
    pub private_inputs: Set<WitnessID>,
    pub public_outputs: Set<WitnessID>,
    pub private_outputs: Set<WitnessID>,
}

impl View for IOProfile {
    type V = IOProfileView;

    open spec fn view(&self) -> IOProfileView {
        IOProfileView {
            public_inputs: self.public_inputs@,
            private_inputs: self.private_inputs@,
            public_outputs: self.public_outputs@,
            private_outputs: self.private_outputs@,
        }
    }
}

impl Clone for IOProfile {
    fn clone(&self) -> (r: Self)
        ensures
            r@ == self@,
    {
        IOProfile {
            public_inputs: self.public_inputs.clone(),
            private_inputs: self.private_inputs.clone(),
            public_outputs: self.public_outputs.clone(),
            private_outputs: self.private_outputs.clone(),
        }
    }
}

/// The roles that the identifiers of a circuit get. The public outputs
/// are the return values that are not private outputs; the public inputs
/// are the declared public inputs that are not public outputs; the private
/// inputs are the arguments that are neither.
pub open spec fn extract_io_spec(
    arguments: Set<WitnessID>,
    declared_public_inputs: Set<WitnessID>,
    return_values: Set<WitnessID>,
    private_outputs: Set<WitnessID>,
) -> IOProfileView {
    let public_outputs = return_values.difference(private_outputs);
    let public_inputs = declared_public_inputs.difference(public_outputs);
    IOProfileView {
        public_inputs,
        private_inputs: arguments.difference(public_outputs).difference(public_inputs),
        public_outputs,
        private_outputs,
    }
}

/// The four sets of an extracted IO profile hold nothing but arguments,
/// declared public inputs and return values, as long as the private
/// outputs are return values. No identifier is in two of the sets exactly
/// where no private output is also an argument or a declared public input.
pub proof fn lemma_extract_io_disjoint(
    arguments: Set<WitnessID>,
    declared_public_inputs: Set<WitnessID>,
    return_values: Set<WitnessID>,
    private_outputs: Set<WitnessID>,
)
    requires
        private_outputs.subset_of(return_values),
    ensures
        ({
            let io = extract_io_spec(
                arguments,
                declared_public_inputs,
                return_values,
                private_outputs,
            );
            &&& io.all().subset_of(arguments + declared_public_inputs + return_values)
            &&& io.pairwise_disjoint() <==> private_outputs.disjoint(
                arguments + declared_public_inputs,
            )
        }),
{
    let io = extract_io_spec(arguments, declared_public_inputs, return_values, private_outputs);
    if private_outputs.disjoint(arguments + declared_public_inputs) {
        assert(io.pairwise_disjoint()) by {
            assert forall|k: WitnessID| io.private_outputs.contains(k) implies !io.public_inputs.contains(
                k,
            ) && !io.private_inputs.contains(k) by {
                assert(!(arguments + declared_public_inputs).contains(k));
            }
        }
    }
    if io.pairwise_disjoint() {
        assert forall|k: WitnessID| private_outputs.contains(k) implies !(arguments
            + declared_public_inputs).contains(k) by {
            assert(!io.public_outputs.contains(k));
            if declared_public_inputs.contains(k) {
                assert(io.public_inputs.contains(k));
            } else if arguments.contains(k) {
                assert(io.private_inputs.contains(k));
            }
        }
    }
}

impl IOProfile {
    /// Whether the profile can describe a step of a folding chain: there
    /// is a public input, and there are as many public outputs as public
    /// inputs, so that each output can be fed back into an input.
    pub fn check_structure(&self) -> (r: Result<(), MalformedProgramError>)
        ensures
            r == self@.structure_check(),
    {
        if self.public_inputs.len() == 0 {
            return Err(MalformedProgramError::NoPublicInput);
        }
        if self.public_inputs.len() != self.public_outputs.len() {
            return Err(MalformedProgramError::PublicInputOutputMismatch);
        }
        Ok(())
    }
}

impl IOProfileView {
    /// What the check of the structure of a profile gives.
    pub open spec fn structure_check(self) -> Result<(), MalformedProgramError> {
        if self.public_inputs.len() == 0 {
            Err(MalformedProgramError::NoPublicInput)
        } else if self.public_inputs.len() != self.public_outputs.len() {
            Err(MalformedProgramError::PublicInputOutputMismatch)
        } else {
            Ok(())
        }
    }
}

impl IOProfileView {
    /// Whether no identifier has two roles.
    pub open spec fn pairwise_disjoint(self) -> bool {
        &&& self.public_inputs.disjoint(self.private_inputs)
        &&& self.public_inputs.disjoint(self.public_outputs)
        &&& self.public_inputs.disjoint(self.private_outputs)
        &&& self.private_inputs.disjoint(self.public_outputs)
        &&& self.private_inputs.disjoint(self.private_outputs)
        &&& self.public_outputs.disjoint(self.private_outputs)
    }

    /// Every identifier that has a role.
    pub open spec fn all(self) -> Set<WitnessID> {
        self.public_inputs + self.private_inputs + self.public_outputs + self.private_outputs
    }
}

/// The description of one step of a folding chain: the roles of the shared
/// identifiers, the number of identifiers and the constraints over them.
#[derive(Debug, PartialEq, Eq)]
pub struct IVCProgram {
    pub io: IOProfile,
    pub num_witness: u32,
    pub r1cs_constraints: Vec<R1CSConstraint>,
    pub curve: String,
    pub version: String,
}

/// What a program description says.
pub struct IVCProgramView {
    pub io: IOProfileView,
    pub num_witness: u32,
    pub r1cs_constraints: Seq<ConstraintView>,
    pub curve: Seq<char>,
    pub version: Seq<char>,
}

impl View for IVCProgram {
    type V = IVCProgramView;

    open spec fn view(&self) -> IVCProgramView {
        IVCProgramView {
            io: self.io@,
            num_witness: self.num_witness,
            r1cs_constraints: constraints_view(self.r1cs_constraints@),
            curve: self.curve@,
            version: self.version@,
        }
    }
}

impl Clone for IVCProgram {
    fn clone(&self) -> (r: Self)
        ensures
            r@ == self@,
    {
        let mut r1cs_constraints: Vec<R1CSConstraint> = Vec::new();
        let mut i: usize = 0;
        while i < self.r1cs_constraints.len()
            invariant
                i <= self.r1cs_constraints.len(),
                constraints_view(r1cs_constraints@) == constraints_view(
                    self.r1cs_constraints@,
                ).take(i as int),
            decreases self.r1cs_constraints.len() - i,
        {
            let ghost before = constraints_view(r1cs_constraints@);
            let c = self.r1cs_constraints[i].clone();
            r1cs_constraints.push(c);
            i += 1;
            assert(constraints_view(r1cs_constraints@) =~= before.push(c@));
            assert(constraints_view(self.r1cs_constraints@).take(i as int) =~= before.push(c@));
        }
        proof {
            let all = constraints_view(self.r1cs_constraints@);
            assert(all.take(i as int) =~= all);
        }
        IVCProgram {
            io: self.io.clone(),
            num_witness: self.num_witness,
            r1cs_constraints,
            curve: self.curve.clone(),
            version: self.version.clone(),
        }
    }
}

/// A program description together with an assignment for it.
#[derive(Debug, PartialEq, Eq)]
pub struct Step {
    pub witness: Witness,
    pub program: IVCProgram,
}

} // verus!
