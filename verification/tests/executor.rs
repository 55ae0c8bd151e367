use alloy_sol_types::{sol_data, SolError, SolType};
use plutus::execution::{decoded_call, map_execution_result, CallFailure, ExecutionOutcome, RevertReason};
use plutus::executor::{ExecutionStep, Executor};
use plutus::token::Address;

fn alloy_address(a: Address) -> alloy_primitives::Address {
    let mut b = [0u8; 20];
    b[..4].copy_from_slice(&a.hi.to_be_bytes());
    b[4..].copy_from_slice(&a.lo.to_be_bytes());
    alloy_primitives::Address::from(b)
}

fn steps() -> Vec<ExecutionStep> {
    vec![
        ExecutionStep { target: Address::new(0xdead_beef, 1), data: vec![1, 2, 3] },
        ExecutionStep { target: Address::new(0x0102_0304, 0xffff_ffff_ffff_ffff_ffff_ffff_ffff_ffff), data: vec![7; 40] },
        ExecutionStep { target: Address::new(0, 0), data: vec![] },
    ]
}

#[test]
fn the_other_legs_travel_as_targets_and_call_data() {
    let s = steps();
    let expected = <(sol_data::Array<sol_data::Address>, sol_data::Array<sol_data::Bytes>)>::abi_encode_sequence(&(
        s.iter().map(|x| alloy_address(x.target)).collect::<Vec<_>>(),
        s.iter().map(|x| alloy_primitives::Bytes::from(x.data.clone())).collect::<Vec<_>>(),
    ));
    assert_eq!(Executor::legs_extra(&s), expected);
    let none = <(sol_data::Array<sol_data::Address>, sol_data::Array<sol_data::Bytes>)>::abi_encode_sequence(&(Vec::<alloy_primitives::Address>::new(), Vec::<alloy_primitives::Bytes>::new()));
    assert_eq!(Executor::legs_extra(&vec![]), none);
}

#[test]
fn the_executor_call_carries_the_first_step() {
    let first = ExecutionStep { target: Address::new(0xabcd, 0x1234), data: vec![9; 33] };
    let mut expected = alloy_primitives::keccak256("execute1695833(address,bytes)")[..4].to_vec();
    assert_eq!(expected, vec![0, 0, 0, 0x14]);
    expected.extend(<(sol_data::Address, sol_data::Bytes)>::abi_encode_sequence(&(
        alloy_address(first.target),
        alloy_primitives::Bytes::from(first.data.clone()),
    )));
    assert_eq!(Executor::call_data(&first), expected);
}

#[test]
fn nonces_are_taken_in_order() {
    let mut e = Executor::new(Address::new(1, 1), 41);
    assert_eq!(e.take_nonce(), 41);
    assert_eq!(e.take_nonce(), 42);
    assert_eq!(e.nonce(), 43);
    assert_eq!(e.contract(), Address::new(1, 1));
}

#[test]
fn a_returned_call_gives_its_gas_and_output() {
    let r = map_execution_result::<u8, ()>(ExecutionOutcome::Success { gas_used: 21000, output: Some(vec![1, 2]) });
    assert!(matches!(r, Ok((21000, ref o)) if *o == vec![1, 2]));
    let r = map_execution_result::<u8, ()>(ExecutionOutcome::Success { gas_used: 5, output: None });
    assert!(matches!(r, Err(CallFailure::CreateOutput)));
}

#[test]
fn a_revert_gives_its_message_or_its_data() {
    let data = alloy_sol_types::Revert::from("not enough").abi_encode();
    let r = map_execution_result::<u8, ()>(ExecutionOutcome::Revert { gas_used: 7, output: data });
    assert!(matches!(r, Err(CallFailure::Revert { reason: RevertReason::String(ref m), gas_used: 7 }) if m == "not enough"));
    let r = map_execution_result::<u8, ()>(ExecutionOutcome::Revert { gas_used: 8, output: vec![0xde, 0xad] });
    assert!(matches!(r, Err(CallFailure::Revert { reason: RevertReason::Unknown(ref d), gas_used: 8 }) if *d == vec![0xde, 0xad]));
}

#[test]
fn a_halt_keeps_its_reason() {
    let r = map_execution_result::<&str, ()>(ExecutionOutcome::Halt { reason: "out of gas", gas_used: 9 });
    assert!(matches!(r, Err(CallFailure::Halt { reason: "out of gas", gas_used: 9 })));
}

#[test]
fn a_returned_output_is_decoded_into_the_return_type_or_fails_to() {
    let mut word = vec![0u8; 32];
    word[31] = 42;
    let (gas, output) = map_execution_result::<u8, alloy_sol_types::Error>(ExecutionOutcome::Success { gas_used: 100, output: Some(word) }).ok().unwrap();
    let r = decoded_call::<_, u8, _>(gas, <sol_data::Uint<256> as SolType>::abi_decode(&output));
    let call = r.ok().unwrap();
    assert_eq!(call.gas_used, 100);
    assert_eq!(call.output, alloy_primitives::U256::from(42));
    let r = decoded_call::<_, u8, _>(gas, <sol_data::Uint<256> as SolType>::abi_decode(&[1, 2, 3]));
    assert!(matches!(r, Err(CallFailure::Decode(_))));
}
