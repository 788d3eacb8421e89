use vstd::prelude::*;
use crate::outside::text::{lowercase_of, to_lowercase};

verus! {

/// An EVM opcode is a single byte.
pub type OpCode = u8;

// 0x30 range - closure state.
pub const ADDRESS: OpCode = 0x30;

pub const BALANCE: OpCode = 0x31;

pub const ORIGIN: OpCode = 0x32;

pub const CALLER: OpCode = 0x33;

pub const CALLVALUE: OpCode = 0x34;

pub const CALLDATALOAD: OpCode = 0x35;

pub const CALLDATASIZE: OpCode = 0x36;

pub const CALLDATACOPY: OpCode = 0x37;

pub const CODESIZE: OpCode = 0x38;

pub const CODECOPY: OpCode = 0x39;

pub const GASPRICE: OpCode = 0x3a;

pub const EXTCODESIZE: OpCode = 0x3b;

pub const EXTCODECOPY: OpCode = 0x3c;

pub const RETURNDATASIZE: OpCode = 0x3d;

pub const RETURNDATACOPY: OpCode = 0x3e;

pub const EXTCODEHASH: OpCode = 0x3f;

pub const BLOCKHASH: OpCode = 0x40;

pub const COINBASE: OpCode = 0x41;

pub const TIMESTAMP: OpCode = 0x42;

pub const NUMBER: OpCode = 0x43;

pub const DIFFICULTY: OpCode = 0x44;

pub const RANDOM: OpCode = 0x44;

pub const PREVRANDAO: OpCode = 0x44;

pub const GASLIMIT: OpCode = 0x45;

pub const CHAINID: OpCode = 0x46;

pub const SELFBALANCE: OpCode = 0x47;

pub const BASEFEE: OpCode = 0x48;

pub const POP: OpCode = 0x50;

pub const MLOAD: OpCode = 0x51;

pub const MSTORE: OpCode = 0x52;

pub const MSTORE8: OpCode = 0x53;

pub const SLOAD: OpCode = 0x54;

pub const SSTORE: OpCode = 0x55;

pub const JUMP: OpCode = 0x56;

pub const JUMPI: OpCode = 0x57;

pub const PC: OpCode = 0x58;

pub const MSIZE: OpCode = 0x59;

pub const GAS: OpCode = 0x5a;

pub const JUMPDEST: OpCode = 0x5b;

// 0x5f and 0x60 range - pushes.
pub const PUSH0: OpCode = 0x5f;

pub const PUSH1: OpCode = 0x60;

pub const PUSH2: OpCode = 0x61;

pub const PUSH32: OpCode = 0x7f;

/// Number of immediate data bytes that follow `op` where it is a push opcode
/// (`PUSH0` to `PUSH32`), `None` for every other opcode.
pub open spec fn spec_push_length(op: OpCode) -> Option<usize> {
    if PUSH0 <= op && op <= PUSH32 {
        Some((op - PUSH0) as usize)
    } else {
        None
    }
}

/// Returns the number of immediate data bytes of a push opcode.
pub fn push_length(op: OpCode) -> (res: Option<usize>)
    ensures
        res == spec_push_length(op),
        res matches Some(n) ==> n <= 32,
{
    if PUSH0 <= op && op <= PUSH32 {
        Some((op - PUSH0) as usize)
    } else {
        None
    }
}

/// The opcodes that read a value of the execution environment, which a program may
/// declare to be known.
pub open spec fn spec_is_assumable_opcode(op: OpCode) -> bool {
    op == ADDRESS || op == ORIGIN || op == CALLER || op == CALLVALUE || op == CALLDATASIZE || op
        == GASPRICE || op == RETURNDATASIZE || op == BLOCKHASH || op == COINBASE || op == TIMESTAMP
        || op == NUMBER || op == DIFFICULTY || op == GASLIMIT || op == CHAINID || op == BASEFEE
        || op == MSIZE
}

/// Tells whether the value of `op` can be assumed.
pub fn is_assumable_opcode(op: OpCode) -> (res: bool)
    ensures
        res == spec_is_assumable_opcode(op),
{
    op == ADDRESS || op == ORIGIN || op == CALLER || op == CALLVALUE || op == CALLDATASIZE || op
        == GASPRICE || op == RETURNDATASIZE || op == BLOCKHASH || op == COINBASE || op == TIMESTAMP
        || op == NUMBER || op == DIFFICULTY || op == GASLIMIT || op == CHAINID || op == BASEFEE
        || op == MSIZE
}

/// The opcode that a lowercase mnemonic stands for. The push opcodes have no mnemonic:
/// a push is written as a function call, and its width is chosen when the bytes are laid out.
pub open spec fn mnemonic_op(name: Seq<char>) -> Option<OpCode> {
    if name == "stop"@ {
        Some(0x00u8)
    } else if name == "add"@ {
        Some(0x01u8)
    } else if name == "mul"@ {
        Some(0x02u8)
    } else if name == "sub"@ {
        Some(0x03u8)
    } else if name == "div"@ {
        Some(0x04u8)
    } else if name == "sdiv"@ {
        Some(0x05u8)
    } else if name == "mod"@ {
        Some(0x06u8)
    } else if name == "smod"@ {
        Some(0x07u8)
    } else if name == "addmod"@ {
        Some(0x08u8)
    } else if name == "mulmod"@ {
        Some(0x09u8)
    } else if name == "exp"@ {
        Some(0x0au8)
    } else if name == "signextend"@ {
        Some(0x0bu8)
    } else if name == "lt"@ {
        Some(0x10u8)
    } else if name == "gt"@ {
        Some(0x11u8)
    } else if name == "slt"@ {
        Some(0x12u8)
    } else if name == "sgt"@ {
        Some(0x13u8)
    } else if name == "eq"@ {
        Some(0x14u8)
    } else if name == "iszero"@ {
        Some(0x15u8)
    } else if name == "and"@ {
        Some(0x16u8)
    } else if name == "or"@ {
        Some(0x17u8)
    } else if name == "xor"@ {
        Some(0x18u8)
    } else if name == "not"@ {
        Some(0x19u8)
    } else if name == "byte"@ {
        Some(0x1au8)
    } else if name == "shl"@ {
        Some(0x1bu8)
    } else if name == "shr"@ {
        Some(0x1cu8)
    } else if name == "sar"@ {
        Some(0x1du8)
    } else if name == "keccak256"@ {
        Some(0x20u8)
    } else if name == "address"@ {
        Some(ADDRESS)
    } else if name == "balance"@ {
        Some(BALANCE)
    } else if name == "origin"@ {
        Some(ORIGIN)
    } else if name == "caller"@ {
        Some(CALLER)
    } else if name == "callvalue"@ {
        Some(CALLVALUE)
    } else if name == "calldataload"@ {
        Some(CALLDATALOAD)
    } else if name == "calldatasize"@ {
        Some(CALLDATASIZE)
    } else if name == "calldatacopy"@ {
        Some(CALLDATACOPY)
    } else if name == "codesize"@ {
        Some(CODESIZE)
    } else if name == "codecopy"@ {
        Some(CODECOPY)
    } else if name == "gasprice"@ {
        Some(GASPRICE)
    } else if name == "extcodesize"@ {
        Some(EXTCODESIZE)
    } else if name == "extcodecopy"@ {
        Some(EXTCODECOPY)
    } else if name == "returndatasize"@ {
        Some(RETURNDATASIZE)
    } else if name == "returndatacopy"@ {
        Some(RETURNDATACOPY)
    } else if name == "extcodehash"@ {
        Some(EXTCODEHASH)
    } else if name == "blockhash"@ {
        Some(BLOCKHASH)
    } else if name == "coinbase"@ {
        Some(COINBASE)
    } else if name == "timestamp"@ {
        Some(TIMESTAMP)
    } else if name == "number"@ {
        Some(NUMBER)
    } else if name == "difficulty"@ {
        Some(DIFFICULTY)
    } else if name == "random"@ {
        Some(RANDOM)
    } else if name == "prevrandao"@ {
        Some(PREVRANDAO)
    } else if name == "gaslimit"@ {
        Some(GASLIMIT)
    } else if name == "chainid"@ {
        Some(CHAINID)
    } else if name == "selfbalance"@ {
        Some(SELFBALANCE)
    } else if name == "basefee"@ {
        Some(BASEFEE)
    } else if name == "pop"@ {
        Some(POP)
    } else if name == "mload"@ {
        Some(MLOAD)
    } else if name == "mstore"@ {
        Some(MSTORE)
    } else if name == "mstore8"@ {
        Some(MSTORE8)
    } else if name == "sload"@ {
        Some(SLOAD)
    } else if name == "sstore"@ {
        Some(SSTORE)
    } else if name == "jump"@ {
        Some(JUMP)
    } else if name == "jumpi"@ {
        Some(JUMPI)
    } else if name == "pc"@ {
        Some(PC)
    } else if name == "msize"@ {
        Some(MSIZE)
    } else if name == "gas"@ {
        Some(GAS)
    } else if name == "jumpdest"@ {
        Some(JUMPDEST)
    } else if name == "dup1"@ {
        Some(0x80u8)
    } else if name == "dup2"@ {
        Some(0x81u8)
    } else if name == "dup3"@ {
        Some(0x82u8)
    } else if name == "dup4"@ {
        Some(0x83u8)
    } else if name == "dup5"@ {
        Some(0x84u8)
    } else if name == "dup6"@ {
        Some(0x85u8)
    } else if name == "dup7"@ {
        Some(0x86u8)
    } else if name == "dup8"@ {
        Some(0x87u8)
    } else if name == "dup9"@ {
        Some(0x88u8)
    } else if name == "dup10"@ {
        Some(0x89u8)
    } else if name == "dup11"@ {
        Some(0x8au8)
    } else if name == "dup12"@ {
        Some(0x8bu8)
    } else if name == "dup13"@ {
        Some(0x8cu8)
    } else if name == "dup14"@ {
        Some(0x8du8)
    } else if name == "dup15"@ {
        Some(0x8eu8)
    } else if name == "dup16"@ {
        Some(0x8fu8)
    } else if name == "swap1"@ {
        Some(0x90u8)
    } else if name == "swap2"@ {
        Some(0x91u8)
    } else if name == "swap3"@ {
        Some(0x92u8)
    } else if name == "swap4"@ {
        Some(0x93u8)
    } else if name == "swap5"@ {
        Some(0x94u8)
    } else if name == "swap6"@ {
        Some(0x95u8)
    } else if name == "swap7"@ {
        Some(0x96u8)
    } else if name == "swap8"@ {
        Some(0x97u8)
    } else if name == "swap9"@ {
        Some(0x98u8)
    } else if name == "swap10"@ {
        Some(0x99u8)
    } else if name == "swap11"@ {
        Some(0x9au8)
    } else if name == "swap12"@ {
        Some(0x9bu8)
    } else if name == "swap13"@ {
        Some(0x9cu8)
    } else if name == "swap14"@ {
        Some(0x9du8)
    } else if name == "swap15"@ {
        Some(0x9eu8)
    } else if name == "swap16"@ {
        Some(0x9fu8)
    } else if name == "log0"@ {
        Some(0xa0u8)
    } else if name == "log1"@ {
        Some(0xa1u8)
    } else if name == "log2"@ {
        Some(0xa2u8)
    } else if name == "log3"@ {
        Some(0xa3u8)
    } else if name == "log4"@ {
        Some(0xa4u8)
    } else if name == "tload"@ {
        Some(0xb3u8)
    } else if name == "tstore"@ {
        Some(0xb4u8)
    } else if name == "create"@ {
        Some(0xf0u8)
    } else if name == "call"@ {
        Some(0xf1u8)
    } else if name == "callcode"@ {
        Some(0xf2u8)
    } else if name == "return"@ {
        Some(0xf3u8)
    } else if name == "delegatecall"@ {
        Some(0xf4u8)
    } else if name == "create2"@ {
        Some(0xf5u8)
    } else if name == "staticcall"@ {
        Some(0xfau8)
    } else if name == "revert"@ {
        Some(0xfdu8)
    } else if name == "selfdestruct"@ {
        Some(0xffu8)
    } else {
        None
    }
}

/// Looks a lowercase mnemonic up in the opcode table.
pub fn op_from_mnemonic(name: &str) -> (res: Option<OpCode>)
    ensures
        res == mnemonic_op(name@),
{
    if *name == *"stop" {
        return Some(0x00);
    }
    if *name == *"add" {
        return Some(0x01);
    }
    if *name == *"mul" {
        return Some(0x02);
    }
    if *name == *"sub" {
        return Some(0x03);
    }
    if *name == *"div" {
        return Some(0x04);
    }
    if *name == *"sdiv" {
        return Some(0x05);
    }
    if *name == *"mod" {
        return Some(0x06);
    }
    if *name == *"smod" {
        return Some(0x07);
    }
    if *name == *"addmod" {
        return Some(0x08);
    }
    if *name == *"mulmod" {
        return Some(0x09);
    }
    if *name == *"exp" {
        return Some(0x0a);
    }
    if *name == *"signextend" {
        return Some(0x0b);
    }
    if *name == *"lt" {
        return Some(0x10);
    }
    if *name == *"gt" {
        return Some(0x11);
    }
    if *name == *"slt" {
        return Some(0x12);
    }
    if *name == *"sgt" {
        return Some(0x13);
    }
    if *name == *"eq" {
        return Some(0x14);
    }
    if *name == *"iszero" {
        return Some(0x15);
    }
    if *name == *"and" {
        return Some(0x16);
    }
    if *name == *"or" {
        return Some(0x17);
    }
    if *name == *"xor" {
        return Some(0x18);
    }
    if *name == *"not" {
        return Some(0x19);
    }
    if *name == *"byte" {
        return Some(0x1a);
    }
    if *name == *"shl" {
        return Some(0x1b);
    }
    if *name == *"shr" {
        return Some(0x1c);
    }
    if *name == *"sar" {
        return Some(0x1d);
    }
    if *name == *"keccak256" {
        return Some(0x20);
    }
    if *name == *"address" {
        return Some(ADDRESS);
    }
    if *name == *"balance" {
        return Some(BALANCE);
    }
    if *name == *"origin" {
        return Some(ORIGIN);
    }
    if *name == *"caller" {
        return Some(CALLER);
    }
    if *name == *"callvalue" {
        return Some(CALLVALUE);
    }
    if *name == *"calldataload" {
        return Some(CALLDATALOAD);
    }
    if *name == *"calldatasize" {
        return Some(CALLDATASIZE);
    }
    if *name == *"calldatacopy" {
        return Some(CALLDATACOPY);
    }
    if *name == *"codesize" {
        return Some(CODESIZE);
    }
    if *name == *"codecopy" {
        return Some(CODECOPY);
    }
    if *name == *"gasprice" {
        return Some(GASPRICE);
    }
    if *name == *"extcodesize" {
        return Some(EXTCODESIZE);
    }
    if *name == *"extcodecopy" {
        return Some(EXTCODECOPY);
    }
    if *name == *"returndatasize" {
        return Some(RETURNDATASIZE);
    }
    if *name == *"returndatacopy" {
        return Some(RETURNDATACOPY);
    }
    if *name == *"extcodehash" {
        return Some(EXTCODEHASH);
    }
    if *name == *"blockhash" {
        return Some(BLOCKHASH);
    }
    if *name == *"coinbase" {
        return Some(COINBASE);
    }
    if *name == *"timestamp" {
        return Some(TIMESTAMP);
    }
    if *name == *"number" {
        return Some(NUMBER);
    }
    if *name == *"difficulty" {
        return Some(DIFFICULTY);
    }
    if *name == *"random" {
        return Some(RANDOM);
    }
    if *name == *"prevrandao" {
        return Some(PREVRANDAO);
    }
    if *name == *"gaslimit" {
        return Some(GASLIMIT);
    }
    if *name == *"chainid" {
        return Some(CHAINID);
    }
    if *name == *"selfbalance" {
        return Some(SELFBALANCE);
    }
    if *name == *"basefee" {
        return Some(BASEFEE);
    }
    if *name == *"pop" {
        return Some(POP);
    }
    if *name == *"mload" {
        return Some(MLOAD);
    }
    if *name == *"mstore" {
        return Some(MSTORE);
    }
    if *name == *"mstore8" {
        return Some(MSTORE8);
    }
    if *name == *"sload" {
        return Some(SLOAD);
    }
    if *name == *"sstore" {
        return Some(SSTORE);
    }
    if *name == *"jump" {
        return Some(JUMP);
    }
    if *name == *"jumpi" {
        return Some(JUMPI);
    }
    if *name == *"pc" {
        return Some(PC);
    }
    if *name == *"msize" {
        return Some(MSIZE);
    }
    if *name == *"gas" {
        return Some(GAS);
    }
    if *name == *"jumpdest" {
        return Some(JUMPDEST);
    }
    if *name == *"dup1" {
        return Some(0x80);
    }
    if *name == *"dup2" {
        return Some(0x81);
    }
    if *name == *"dup3" {
        return Some(0x82);
    }
    if *name == *"dup4" {
        return Some(0x83);
    }
    if *name == *"dup5" {
        return Some(0x84);
    }
    if *name == *"dup6" {
        return Some(0x85);
    }
    if *name == *"dup7" {
        return Some(0x86);
    }
    if *name == *"dup8" {
        return Some(0x87);
    }
    if *name == *"dup9" {
        return Some(0x88);
    }
    if *name == *"dup10" {
        return Some(0x89);
    }
    if *name == *"dup11" {
        return Some(0x8a);
    }
    if *name == *"dup12" {
        return Some(0x8b);
    }
    if *name == *"dup13" {
        return Some(0x8c);
    }
    if *name == *"dup14" {
        return Some(0x8d);
    }
    if *name == *"dup15" {
        return Some(0x8e);
    }
    if *name == *"dup16" {
        return Some(0x8f);
    }
    if *name == *"swap1" {
        return Some(0x90);
    }
    if *name == *"swap2" {
        return Some(0x91);
    }
    if *name == *"swap3" {
        return Some(0x92);
    }
    if *name == *"swap4" {
        return Some(0x93);
    }
    if *name == *"swap5" {
        return Some(0x94);
    }
    if *name == *"swap6" {
        return Some(0x95);
    }
    if *name == *"swap7" {
        return Some(0x96);
    }
    if *name == *"swap8" {
        return Some(0x97);
    }
    if *name == *"swap9" {
        return Some(0x98);
    }
    if *name == *"swap10" {
        return Some(0x99);
    }
    if *name == *"swap11" {
        return Some(0x9a);
    }
    if *name == *"swap12" {
        return Some(0x9b);
    }
    if *name == *"swap13" {
        return Some(0x9c);
    }
    if *name == *"swap14" {
        return Some(0x9d);
    }
    if *name == *"swap15" {
        return Some(0x9e);
    }
    if *name == *"swap16" {
        return Some(0x9f);
    }
    if *name == *"log0" {
        return Some(0xa0);
    }
    if *name == *"log1" {
        return Some(0xa1);
    }
    if *name == *"log2" {
        return Some(0xa2);
    }
    if *name == *"log3" {
        return Some(0xa3);
    }
    if *name == *"log4" {
        return Some(0xa4);
    }
    if *name == *"tload" {
        return Some(0xb3);
    }
    if *name == *"tstore" {
        return Some(0xb4);
    }
    if *name == *"create" {
        return Some(0xf0);
    }
    if *name == *"call" {
        return Some(0xf1);
    }
    if *name == *"callcode" {
        return Some(0xf2);
    }
    if *name == *"return" {
        return Some(0xf3);
    }
    if *name == *"delegatecall" {
        return Some(0xf4);
    }
    if *name == *"create2" {
        return Some(0xf5);
    }
    if *name == *"staticcall" {
        return Some(0xfa);
    }
    if *name == *"revert" {
        return Some(0xfd);
    }
    if *name == *"selfdestruct" {
        return Some(0xff);
    }
    None
}

/// Looks a mnemonic up without regard to case: the name is brought to lowercase first.
pub fn str_to_op(name: &str) -> (res: Option<OpCode>)
    ensures
        res == mnemonic_op(lowercase_of(name@)),
{
    let lower = to_lowercase(name);
    op_from_mnemonic(lower.as_str())
}

} // verus!
