use vstd::prelude::*;

verus! {

/// The system calls of deprecated (Cairo 0) contracts.
#[derive(Clone, Copy, Debug, PartialEq, Eq, Structural, Hash)]
pub enum DeprecatedSyscallSelector {
    CallContract,
    DelegateCall,
    DelegateL1Handler,
    Deploy,
    EmitEvent,
    GetBlockHash,
    GetBlockNumber,
    GetBlockTimestamp,
    GetCallerAddress,
    GetClassHashAt,
    GetContractAddress,
    GetExecutionInfo,
    GetSequencerAddress,
    GetTxInfo,
    GetTxSignature,
    Keccak,
    KeccakRound,
    Sha256ProcessBlock,
    LibraryCall,
    LibraryCallL1Handler,
    MetaTxV0,
    ReplaceClass,
    Secp256k1Add,
    Secp256k1GetPointFromX,
    Secp256k1GetXy,
    Secp256k1Mul,
    Secp256k1New,
    Secp256r1Add,
    Secp256r1GetPointFromX,
    Secp256r1GetXy,
    Secp256r1Mul,
    Secp256r1New,
    SendMessageToL1,
    StorageRead,
    StorageWrite,
}

impl DeprecatedSyscallSelector {
    /// The system calls that run code of another contract (or of a class).
    pub open spec fn calls_other_code(&self) -> bool {
        ||| *self == DeprecatedSyscallSelector::CallContract
        ||| *self == DeprecatedSyscallSelector::DelegateCall
        ||| *self == DeprecatedSyscallSelector::DelegateL1Handler
        ||| *self == DeprecatedSyscallSelector::Deploy
        ||| *self == DeprecatedSyscallSelector::LibraryCall
        ||| *self == DeprecatedSyscallSelector::LibraryCallL1Handler
        ||| *self == DeprecatedSyscallSelector::MetaTxV0
    }

    pub fn is_calling_syscall(&self) -> (r: bool)
        ensures
            r == self.calls_other_code(),
    {
        match self {
            DeprecatedSyscallSelector::CallContract
            | DeprecatedSyscallSelector::DelegateCall
            | DeprecatedSyscallSelector::DelegateL1Handler
            | DeprecatedSyscallSelector::Deploy
            | DeprecatedSyscallSelector::LibraryCall
            | DeprecatedSyscallSelector::LibraryCallL1Handler
            | DeprecatedSyscallSelector::MetaTxV0 => true,
            _ => false,
        }
    }
}

/// The request of a system call that takes no arguments.
#[derive(Clone, Copy, Debug, PartialEq, Eq, Structural)]
pub struct EmptyRequest;

/// The response of a system call that returns nothing.
#[derive(Clone, Copy, Debug, PartialEq, Eq, Structural)]
pub struct EmptyResponse;

/// Where the data of a transaction is made available: on L1 or on L2.
#[derive(Clone, Copy, Debug, PartialEq, Eq, Structural)]
pub enum DataAvailabilityMode {
    L1,
    L2,
}

} // verus!
