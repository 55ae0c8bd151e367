//! The outcome of a contract call run in the EVM, as the engine reads it:
//! the output of a call that returned, or why it failed, with the revert
//! message where the revert data holds one; and the call's result once its
//! output is decoded into the return type. Running the EVM and that decoding
//! are the caller's.

use crate::evm::EvmCall;
use alloy_sol_types::SolError;
use vstd::prelude::*;

verus! {

/// How a call run in the EVM ended; `H` is the EVM's halt reason.
pub enum ExecutionOutcome<H> {
    /// The call returned; its output, or `None` where it created a contract
    /// instead.
    Success { gas_used: u64, output: Option<Vec<u8>> },
    /// The call reverted with the given data.
    Revert { gas_used: u64, output: Vec<u8> },
    /// The EVM halted the call.
    Halt { reason: H, gas_used: u64 },
}

/// Why a call reverted: the message of `Error(string)` revert data, or the
/// data itself where it holds none.
#[derive(Clone, Debug)]
pub enum RevertReason {
    String(String),
    Unknown(Vec<u8>),
}

/// Why a call failed; `E` is the error of decoding a call's output.
pub enum CallFailure<H, E> {
    Revert { reason: RevertReason, gas_used: u64 },
    Halt { reason: H, gas_used: u64 },
    Decode(E),
    CreateOutput,
}

/// The message of revert data that decodes as `Error(string)`.
pub uninterp spec fn revert_message(output: Seq<u8>) -> Option<Seq<char>>;

/// `alloy_sol_types::Revert::abi_decode_validate`: the named message where
/// the data is a valid `Error(string)` encoding, else nothing.
#[verifier::external_body]
fn decode_revert(output: &Vec<u8>) -> (r: Option<String>)
    ensures
        r is Some <==> revert_message(output@) is Some,
        r matches Some(m) ==> revert_message(output@) == Some(m@),
{
    match alloy_sol_types::Revert::abi_decode_validate(output) {
        Ok(revert) => Some(revert.reason),
        Err(_) => None,
    }
}

impl RevertReason {
    /// The reason of a revert, given what its data decodes to.
    pub fn from_decoded(message: Option<String>, output: Vec<u8>) -> (r: RevertReason)
        ensures
            message matches Some(m) ==> r == RevertReason::String(m),
            message is None ==> r == RevertReason::Unknown(output),
    {
        match message {
            Some(m) => RevertReason::String(m),
            None => RevertReason::Unknown(output),
        }
    }
}

/// The gas used and the output of a call that returned, or why it failed:
/// a revert with its reason, a halt, or a contract creation where a call
/// was expected.
pub fn map_execution_result<H, E>(result: ExecutionOutcome<H>) -> (r: Result<(u64, Vec<u8>), CallFailure<H, E>>)
    ensures
        match result {
            ExecutionOutcome::Success { gas_used, output: Some(o) } => r == Ok::<(u64, Vec<u8>), CallFailure<H, E>>((gas_used, o)),
            ExecutionOutcome::Success { output: None, .. } => r == Err::<(u64, Vec<u8>), CallFailure<H, E>>(CallFailure::CreateOutput),
            ExecutionOutcome::Revert { gas_used, output } => match revert_message(output@) {
                Some(m) => (r matches Err(CallFailure::Revert { reason: RevertReason::String(s), gas_used: g }) && s@ == m && g == gas_used),
                None => r == Err::<(u64, Vec<u8>), CallFailure<H, E>>(CallFailure::Revert { reason: RevertReason::Unknown(output), gas_used }),
            },
            ExecutionOutcome::Halt { reason, gas_used } => r == Err::<(u64, Vec<u8>), CallFailure<H, E>>(CallFailure::Halt { reason, gas_used }),
        },
{
    match result {
        ExecutionOutcome::Success { gas_used, output } => match output {
            Some(o) => Ok((gas_used, o)),
            None => Err(CallFailure::CreateOutput),
        },
        ExecutionOutcome::Revert { gas_used, output } => {
            let message = decode_revert(&output);
            Err(CallFailure::Revert { reason: RevertReason::from_decoded(message, output), gas_used })
        },
        ExecutionOutcome::Halt { reason, gas_used } => Err(CallFailure::Halt { reason, gas_used }),
    }
}

/// The result of a call that returned, once its output was decoded into
/// the call's return type: the gas used with the decoded value, or the
/// decoding error.
pub fn decoded_call<T, H, E>(gas_used: u64, decoded: Result<T, E>) -> (r: Result<EvmCall<T>, CallFailure<H, E>>)
    ensures
        match decoded {
            Ok(v) => r matches Ok(c) && c.gas_used == gas_used && c.output == v,
            Err(e) => r matches Err(CallFailure::Decode(d)) && d == e,
        },
{
    match decoded {
        Ok(v) => Ok(EvmCall::new(gas_used, v)),
        Err(e) => Err(CallFailure::Decode(e)),
    }
}

} // verus!
