use noir_ivc::field::FieldElement;
use noir_ivc::input::IO;
use noir_ivc::ivc::IOProfile;
use noir_ivc::ivc::MalformedProgramError;
use noir_ivc::ivc::ProgramError;
use noir_ivc::witness::Witness;
use std::collections::BTreeMap;
use std::collections::BTreeSet;

fn set(ids: &[u32]) -> BTreeSet<u32> {
    ids.iter().cloned().collect()
}

fn witness(entries: &[(u32, u64)]) -> Witness {
    Witness(entries.iter().map(|(k, v)| (*k, FieldElement::from_u64(*v))).collect::<BTreeMap<_, _>>())
}

fn profile(public_inputs: &[u32], private_inputs: &[u32], public_outputs: &[u32]) -> IOProfile {
    IOProfile {
        public_inputs: set(public_inputs),
        private_inputs: set(private_inputs),
        public_outputs: set(public_outputs),
        private_outputs: set(&[]),
    }
}

#[test]
fn extract_subset_keeps_the_entries_asked_for() {
    let w = witness(&[(0, 10), (1, 11), (4, 14), (9, 19)]);
    assert_eq!(w.extract_subset(&set(&[9, 1])), Ok(witness(&[(1, 11), (9, 19)])));
    assert_eq!(w.extract_subset(&set(&[])), Ok(witness(&[])));
    assert_eq!(w.extract_subset(&set(&[0, 1, 4, 9])), Ok(w.clone()));
}

#[test]
fn extract_subset_names_the_smallest_missing_identifier() {
    let w = witness(&[(0, 10), (1, 11), (4, 14), (9, 19)]);
    assert_eq!(w.extract_subset(&set(&[0, 8, 3, 9])), Err(ProgramError::MissingWitness(3)));
    assert_eq!(w.extract_subset(&set(&[10])), Err(ProgramError::MissingWitness(10)));
    assert_eq!(witness(&[]).extract_subset(&set(&[7, 2])), Err(ProgramError::MissingWitness(2)));
}

#[test]
fn the_next_input_takes_the_outputs_in_order() {
    let io = profile(&[7, 2, 5], &[], &[20, 10, 30]);
    let outputs = witness(&[(30, 3), (10, 1), (20, 2)]);
    assert_eq!(outputs.make_next_input_witness(&io), witness(&[(2, 1), (5, 2), (7, 3)]));
}

#[test]
fn the_next_input_stops_where_either_side_ends() {
    let more_inputs = profile(&[1, 2, 3], &[], &[]);
    assert_eq!(witness(&[(8, 80), (9, 90)]).make_next_input_witness(&more_inputs), witness(&[(1, 80), (2, 90)]));
    let fewer_inputs = profile(&[4], &[], &[]);
    assert_eq!(witness(&[(8, 80), (9, 90)]).make_next_input_witness(&fewer_inputs), witness(&[(4, 80)]));
    assert_eq!(witness(&[]).make_next_input_witness(&more_inputs), witness(&[]));
    assert_eq!(witness(&[(8, 80)]).make_next_input_witness(&profile(&[], &[], &[])), witness(&[]));
}

#[test]
fn io_lists_the_values_in_the_order_of_their_identifiers() {
    let w = witness(&[(5, 50), (0, 7), (3, 30)]);
    let io = IO::from_witness(&w);
    assert_eq!(
        io,
        IO(vec![FieldElement::from_u64(7), FieldElement::from_u64(30), FieldElement::from_u64(50)])
    );
    assert_eq!(io.make_witness(&profile(&[3, 0, 5], &[], &[])), w);
    assert_eq!(io.make_witness(&profile(&[11, 12], &[1], &[2])), witness(&[(11, 7), (12, 30)]));
    assert_eq!(IO::from_witness(&witness(&[])), IO(vec![]));
}

#[test]
fn witness_holds_one_value_for_each_identifier() {
    let mut w = Witness::new();
    assert_eq!(w.len(), 0);
    w.insert(3, FieldElement::from_u64(1));
    w.insert(3, FieldElement::from_u64(2));
    w.insert(1, FieldElement::from_u64(9));
    assert_eq!(w.len(), 2);
    assert_eq!(w.get(3), Some(FieldElement::from_u64(2)));
    assert_eq!(w.get(1), Some(FieldElement::from_u64(9)));
    assert_eq!(w.get(2), None);
    assert_eq!(w.clone(), w);
}

#[test]
fn a_profile_needs_as_many_public_outputs_as_public_inputs() {
    assert_eq!(profile(&[0], &[1], &[2]).check_structure(), Ok(()));
    assert_eq!(profile(&[0, 3], &[], &[2, 9]).check_structure(), Ok(()));
    assert_eq!(profile(&[], &[1], &[2]).check_structure(), Err(MalformedProgramError::NoPublicInput));
    assert_eq!(profile(&[], &[], &[]).check_structure(), Err(MalformedProgramError::NoPublicInput));
    assert_eq!(
        profile(&[0], &[1], &[]).check_structure(),
        Err(MalformedProgramError::PublicInputOutputMismatch)
    );
    assert_eq!(
        profile(&[0], &[1], &[2, 3]).check_structure(),
        Err(MalformedProgramError::PublicInputOutputMismatch)
    );
}
