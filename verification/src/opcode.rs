//! The instruction set of the virtual machine: opcodes and the operator
//! selectors that follow the arithmetic and bitwise opcodes in the byte code.

use vstd::prelude::*;

verus! {

/// The arithmetic operator that follows a `MathOp` or `MathAssignOp` instruction.
#[derive(Debug, Clone, Copy, PartialEq, Eq, Structural)]
pub enum MathOp {
    Add,
    Subtract,
    Multiply,
    Divide,
    Modulo,
    Power,
    Invalid,
}

/// How an arithmetic operator is written in source text.
pub open spec fn math_text(m: MathOp) -> Seq<char> {
    match m {
        MathOp::Add => seq!['+'],
        MathOp::Subtract => seq!['-'],
        MathOp::Multiply => seq!['*'],
        MathOp::Divide => seq!['/'],
        MathOp::Modulo => seq!['%'],
        MathOp::Power => seq!['*', '*'],
        MathOp::Invalid => Seq::empty(),
    }
}

impl MathOp {
    /// The arithmetic operator that a byte encodes; every byte from 6 up encodes `Invalid`.
    pub open spec fn spec_from_byte(v: u8) -> MathOp {
        match v {
            0u8 => MathOp::Add,
            1u8 => MathOp::Subtract,
            2u8 => MathOp::Multiply,
            3u8 => MathOp::Divide,
            4u8 => MathOp::Modulo,
            5u8 => MathOp::Power,
            _ => MathOp::Invalid,
        }
    }

    /// The byte that encodes an arithmetic operator: its position in the declaration.
    pub open spec fn spec_to_byte(self) -> u8 {
        match self {
            MathOp::Add => 0u8,
            MathOp::Subtract => 1u8,
            MathOp::Multiply => 2u8,
            MathOp::Divide => 3u8,
            MathOp::Modulo => 4u8,
            MathOp::Power => 5u8,
            MathOp::Invalid => 6u8,
        }
    }

    /// The mnemonic under which the operator is listed.
    pub open spec fn spec_mnemonic(self) -> Seq<char> {
        match self {
            MathOp::Add => "ADD"@,
            MathOp::Subtract => "SUBTRACT"@,
            MathOp::Multiply => "MULTIPLY"@,
            MathOp::Divide => "DIVIDE"@,
            MathOp::Modulo => "MODULO"@,
            MathOp::Power => "POWER"@,
            MathOp::Invalid => "<INVALID>"@,
        }
    }

    /// The mnemonic under which the operator is listed.
    pub fn mnemonic(&self) -> (r: &'static str)
        ensures
            r@ == self.spec_mnemonic(),
    {
        match self {
            MathOp::Add => "ADD",
            MathOp::Subtract => "SUBTRACT",
            MathOp::Multiply => "MULTIPLY",
            MathOp::Divide => "DIVIDE",
            MathOp::Modulo => "MODULO",
            MathOp::Power => "POWER",
            MathOp::Invalid => "<INVALID>",
        }
    }
}

impl From<u8> for MathOp {
    fn from(v: u8) -> (r: MathOp)
        ensures
            r == MathOp::spec_from_byte(v),
    {
        match v {
            0 => MathOp::Add,
            1 => MathOp::Subtract,
            2 => MathOp::Multiply,
            3 => MathOp::Divide,
            4 => MathOp::Modulo,
            5 => MathOp::Power,
            _ => MathOp::Invalid,
        }
    }
}

impl vstd::std_specs::convert::FromSpecImpl<u8> for MathOp {
    open spec fn obeys_from_spec() -> bool {
        true
    }

    open spec fn from_spec(v: u8) -> MathOp {
        MathOp::spec_from_byte(v)
    }
}

impl From<MathOp> for u8 {
    fn from(v: MathOp) -> (r: u8)
        ensures
            r == v.spec_to_byte(),
    {
        match v {
            MathOp::Add => 0,
            MathOp::Subtract => 1,
            MathOp::Multiply => 2,
            MathOp::Divide => 3,
            MathOp::Modulo => 4,
            MathOp::Power => 5,
            MathOp::Invalid => 6,
        }
    }
}

impl vstd::std_specs::convert::FromSpecImpl<MathOp> for u8 {
    open spec fn obeys_from_spec() -> bool {
        true
    }

    open spec fn from_spec(v: MathOp) -> u8 {
        v.spec_to_byte()
    }
}

/// The bitwise operator that follows a `BitwiseOp` or `BitwiseAssignOp` instruction.
#[derive(Debug, Clone, Copy, PartialEq, Eq, Structural)]
pub enum BitwiseOp {
    And,
    Or,
    Xor,
    Not,
    LShift,
    RShift,
    Invalid,
}

impl BitwiseOp {
    /// The bitwise operator that a byte encodes; every byte from 6 up encodes `Invalid`.
    pub open spec fn spec_from_byte(v: u8) -> BitwiseOp {
        match v {
            0u8 => BitwiseOp::And,
            1u8 => BitwiseOp::Or,
            2u8 => BitwiseOp::Xor,
            3u8 => BitwiseOp::Not,
            4u8 => BitwiseOp::LShift,
            5u8 => BitwiseOp::RShift,
            _ => BitwiseOp::Invalid,
        }
    }

    /// The byte that encodes an bitwise operator: its position in the declaration.
    pub open spec fn spec_to_byte(self) -> u8 {
        match self {
            BitwiseOp::And => 0u8,
            BitwiseOp::Or => 1u8,
            BitwiseOp::Xor => 2u8,
            BitwiseOp::Not => 3u8,
            BitwiseOp::LShift => 4u8,
            BitwiseOp::RShift => 5u8,
            BitwiseOp::Invalid => 6u8,
        }
    }

    /// The mnemonic under which the operator is listed.
    pub open spec fn spec_mnemonic(self) -> Seq<char> {
        match self {
            BitwiseOp::And => "AND"@,
            BitwiseOp::Or => "OR"@,
            BitwiseOp::Xor => "XOR"@,
            BitwiseOp::Not => "NOT"@,
            BitwiseOp::LShift => "LSHIFT"@,
            BitwiseOp::RShift => "RSHIFT"@,
            BitwiseOp::Invalid => "<INVALID>"@,
        }
    }

    /// The mnemonic under which the operator is listed.
    pub fn mnemonic(&self) -> (r: &'static str)
        ensures
            r@ == self.spec_mnemonic(),
    {
        match self {
            BitwiseOp::And => "AND",
            BitwiseOp::Or => "OR",
            BitwiseOp::Xor => "XOR",
            BitwiseOp::Not => "NOT",
            BitwiseOp::LShift => "LSHIFT",
            BitwiseOp::RShift => "RSHIFT",
            BitwiseOp::Invalid => "<INVALID>",
        }
    }
}

impl From<u8> for BitwiseOp {
    fn from(v: u8) -> (r: BitwiseOp)
        ensures
            r == BitwiseOp::spec_from_byte(v),
    {
        match v {
            0 => BitwiseOp::And,
            1 => BitwiseOp::Or,
            2 => BitwiseOp::Xor,
            3 => BitwiseOp::Not,
            4 => BitwiseOp::LShift,
            5 => BitwiseOp::RShift,
            _ => BitwiseOp::Invalid,
        }
    }
}

impl vstd::std_specs::convert::FromSpecImpl<u8> for BitwiseOp {
    open spec fn obeys_from_spec() -> bool {
        true
    }

    open spec fn from_spec(v: u8) -> BitwiseOp {
        BitwiseOp::spec_from_byte(v)
    }
}

impl From<BitwiseOp> for u8 {
    fn from(v: BitwiseOp) -> (r: u8)
        ensures
            r == v.spec_to_byte(),
    {
        match v {
            BitwiseOp::And => 0,
            BitwiseOp::Or => 1,
            BitwiseOp::Xor => 2,
            BitwiseOp::Not => 3,
            BitwiseOp::LShift => 4,
            BitwiseOp::RShift => 5,
            BitwiseOp::Invalid => 6,
        }
    }
}

impl vstd::std_specs::convert::FromSpecImpl<BitwiseOp> for u8 {
    open spec fn obeys_from_spec() -> bool {
        true
    }

    open spec fn from_spec(v: BitwiseOp) -> u8 {
        v.spec_to_byte()
    }
}

/// An instruction of the virtual machine, encoded as one byte.
#[derive(Debug, Clone, Copy, PartialEq, Eq, Structural)]
pub enum OpCode {
    PushN,
    Pop,
    PopN,
    Dup,
    AddMod,
    SwitchMod,
    LoadTrue,
    LoadFalse,
    LoadNil,
    Load0,
    Load1,
    Load2,
    Load3,
    Load4,
    Load5,
    Load6,
    Load7,
    Load8,
    Load9,
    Load10,
    LoadValue,
    Array,
    Dict,
    DefVar,
    LoadVar,
    StoreVar,
    LoadLocal,
    LoadLocal0,
    LoadLocal1,
    LoadLocal2,
    LoadLocal3,
    LoadLocal4,
    LoadLocal5,
    LoadLocal6,
    LoadLocal7,
    LoadLocal8,
    StoreLocal,
    StoreLocal0,
    StoreLocal1,
    StoreLocal2,
    StoreLocal3,
    StoreLocal4,
    StoreLocal5,
    StoreLocal6,
    StoreLocal7,
    StoreLocal8,
    LoadUpvalue,
    StoreUpvalue,
    LoadField,
    StoreField,
    LoadStatic,
    StoreStatic,
    LoadMethod,
    LoadStaticMethod,
    LoadSuperMethod,
    JumpFwd,
    JumpBack,
    JumpTrue,
    JumpFalse,
    DefStatic,
    Method,
    StaticMethod,
    Instance,
    Closure,
    CloseUpvalue,
    Call,
    Return,
    Ternary,
    Neg,
    Print,
    Println,
    Input,
    MathOp,
    BitwiseOp,
    MathAssignOp,
    BitwiseAssignOp,
    Invalid,
}

impl OpCode {
    /// The instruction that a byte encodes; every byte from 76 up encodes `Invalid`.
    pub open spec fn spec_from_byte(v: u8) -> OpCode {
        match v {
            0u8 => OpCode::PushN,
            1u8 => OpCode::Pop,
            2u8 => OpCode::PopN,
            3u8 => OpCode::Dup,
            4u8 => OpCode::AddMod,
            5u8 => OpCode::SwitchMod,
            6u8 => OpCode::LoadTrue,
            7u8 => OpCode::LoadFalse,
            8u8 => OpCode::LoadNil,
            9u8 => OpCode::Load0,
            10u8 => OpCode::Load1,
            11u8 => OpCode::Load2,
            12u8 => OpCode::Load3,
            13u8 => OpCode::Load4,
            14u8 => OpCode::Load5,
            15u8 => OpCode::Load6,
            16u8 => OpCode::Load7,
            17u8 => OpCode::Load8,
            18u8 => OpCode::Load9,
            19u8 => OpCode::Load10,
            20u8 => OpCode::LoadValue,
            21u8 => OpCode::Array,
            22u8 => OpCode::Dict,
            23u8 => OpCode::DefVar,
            24u8 => OpCode::LoadVar,
            25u8 => OpCode::StoreVar,
            26u8 => OpCode::LoadLocal,
            27u8 => OpCode::LoadLocal0,
            28u8 => OpCode::LoadLocal1,
            29u8 => OpCode::LoadLocal2,
            30u8 => OpCode::LoadLocal3,
            31u8 => OpCode::LoadLocal4,
            32u8 => OpCode::LoadLocal5,
            33u8 => OpCode::LoadLocal6,
            34u8 => OpCode::LoadLocal7,
            35u8 => OpCode::LoadLocal8,
            36u8 => OpCode::StoreLocal,
            37u8 => OpCode::StoreLocal0,
            38u8 => OpCode::StoreLocal1,
            39u8 => OpCode::StoreLocal2,
            40u8 => OpCode::StoreLocal3,
            41u8 => OpCode::StoreLocal4,
            42u8 => OpCode::StoreLocal5,
            43u8 => OpCode::StoreLocal6,
            44u8 => OpCode::StoreLocal7,
            45u8 => OpCode::StoreLocal8,
            46u8 => OpCode::LoadUpvalue,
            47u8 => OpCode::StoreUpvalue,
            48u8 => OpCode::LoadField,
            49u8 => OpCode::StoreField,
            50u8 => OpCode::LoadStatic,
            51u8 => OpCode::StoreStatic,
            52u8 => OpCode::LoadMethod,
            53u8 => OpCode::LoadStaticMethod,
            54u8 => OpCode::LoadSuperMethod,
            55u8 => OpCode::JumpFwd,
            56u8 => OpCode::JumpBack,
            57u8 => OpCode::JumpTrue,
            58u8 => OpCode::JumpFalse,
            59u8 => OpCode::DefStatic,
            60u8 => OpCode::Method,
            61u8 => OpCode::StaticMethod,
            62u8 => OpCode::Instance,
            63u8 => OpCode::Closure,
            64u8 => OpCode::CloseUpvalue,
            65u8 => OpCode::Call,
            66u8 => OpCode::Return,
            67u8 => OpCode::Ternary,
            68u8 => OpCode::Neg,
            69u8 => OpCode::Print,
            70u8 => OpCode::Println,
            71u8 => OpCode::Input,
            72u8 => OpCode::MathOp,
            73u8 => OpCode::BitwiseOp,
            74u8 => OpCode::MathAssignOp,
            75u8 => OpCode::BitwiseAssignOp,
            _ => OpCode::Invalid,
        }
    }

    /// The byte that encodes an instruction: its position in the declaration.
    pub open spec fn spec_to_byte(self) -> u8 {
        match self {
            OpCode::PushN => 0u8,
            OpCode::Pop => 1u8,
            OpCode::PopN => 2u8,
            OpCode::Dup => 3u8,
            OpCode::AddMod => 4u8,
            OpCode::SwitchMod => 5u8,
            OpCode::LoadTrue => 6u8,
            OpCode::LoadFalse => 7u8,
            OpCode::LoadNil => 8u8,
            OpCode::Load0 => 9u8,
            OpCode::Load1 => 10u8,
            OpCode::Load2 => 11u8,
            OpCode::Load3 => 12u8,
            OpCode::Load4 => 13u8,
            OpCode::Load5 => 14u8,
            OpCode::Load6 => 15u8,
            OpCode::Load7 => 16u8,
            OpCode::Load8 => 17u8,
            OpCode::Load9 => 18u8,
            OpCode::Load10 => 19u8,
            OpCode::LoadValue => 20u8,
            OpCode::Array => 21u8,
            OpCode::Dict => 22u8,
            OpCode::DefVar => 23u8,
            OpCode::LoadVar => 24u8,
            OpCode::StoreVar => 25u8,
            OpCode::LoadLocal => 26u8,
            OpCode::LoadLocal0 => 27u8,
            OpCode::LoadLocal1 => 28u8,
            OpCode::LoadLocal2 => 29u8,
            OpCode::LoadLocal3 => 30u8,
            OpCode::LoadLocal4 => 31u8,
            OpCode::LoadLocal5 => 32u8,
            OpCode::LoadLocal6 => 33u8,
            OpCode::LoadLocal7 => 34u8,
            OpCode::LoadLocal8 => 35u8,
            OpCode::StoreLocal => 36u8,
            OpCode::StoreLocal0 => 37u8,
            OpCode::StoreLocal1 => 38u8,
            OpCode::StoreLocal2 => 39u8,
            OpCode::StoreLocal3 => 40u8,
            OpCode::StoreLocal4 => 41u8,
            OpCode::StoreLocal5 => 42u8,
            OpCode::StoreLocal6 => 43u8,
            OpCode::StoreLocal7 => 44u8,
            OpCode::StoreLocal8 => 45u8,
            OpCode::LoadUpvalue => 46u8,
            OpCode::StoreUpvalue => 47u8,
            OpCode::LoadField => 48u8,
            OpCode::StoreField => 49u8,
            OpCode::LoadStatic => 50u8,
            OpCode::StoreStatic => 51u8,
            OpCode::LoadMethod => 52u8,
            OpCode::LoadStaticMethod => 53u8,
            OpCode::LoadSuperMethod => 54u8,
            OpCode::JumpFwd => 55u8,
            OpCode::JumpBack => 56u8,
            OpCode::JumpTrue => 57u8,
            OpCode::JumpFalse => 58u8,
            OpCode::DefStatic => 59u8,
            OpCode::Method => 60u8,
            OpCode::StaticMethod => 61u8,
            OpCode::Instance => 62u8,
            OpCode::Closure => 63u8,
            OpCode::CloseUpvalue => 64u8,
            OpCode::Call => 65u8,
            OpCode::Return => 66u8,
            OpCode::Ternary => 67u8,
            OpCode::Neg => 68u8,
            OpCode::Print => 69u8,
            OpCode::Println => 70u8,
            OpCode::Input => 71u8,
            OpCode::MathOp => 72u8,
            OpCode::BitwiseOp => 73u8,
            OpCode::MathAssignOp => 74u8,
            OpCode::BitwiseAssignOp => 75u8,
            OpCode::Invalid => 76u8,
        }
    }

    /// The mnemonic under which the operator is listed.
    pub open spec fn spec_mnemonic(self) -> Seq<char> {
        match self {
            OpCode::PushN => "PUSHN"@,
            OpCode::Pop => "POP"@,
            OpCode::PopN => "POPN"@,
            OpCode::Dup => "DUP"@,
            OpCode::AddMod => "ADD_MODS"@,
            OpCode::SwitchMod => "SWITCH_MOD"@,
            OpCode::LoadTrue => "LOAD_TRUE"@,
            OpCode::LoadFalse => "LOAD_FALSE"@,
            OpCode::LoadNil => "LOAD_NIL"@,
            OpCode::Load0 => "LOAD0"@,
            OpCode::Load1 => "LOAD1"@,
            OpCode::Load2 => "LOAD2"@,
            OpCode::Load3 => "LOAD3"@,
            OpCode::Load4 => "LOAD4"@,
            OpCode::Load5 => "LOAD5"@,
            OpCode::Load6 => "LOAD6"@,
            OpCode::Load7 => "LOAD7"@,
            OpCode::Load8 => "LOAD8"@,
            OpCode::Load9 => "LOAD9"@,
            OpCode::Load10 => "LOAD10"@,
            OpCode::LoadValue => "LOAD_VALUE"@,
            OpCode::Array => "ARRAY"@,
            OpCode::Dict => "DICT"@,
            OpCode::DefVar => "DEF_VAR"@,
            OpCode::LoadVar => "LOAD_VAR"@,
            OpCode::StoreVar => "STORE_VAR"@,
            OpCode::LoadLocal => "LOAD_LOCAL"@,
            OpCode::LoadLocal0 => "LOAD_LOCAL0"@,
            OpCode::LoadLocal1 => "LOAD_LOCAL1"@,
            OpCode::LoadLocal2 => "LOAD_LOCAL2"@,
            OpCode::LoadLocal3 => "LOAD_LOCAL3"@,
            OpCode::LoadLocal4 => "LOAD_LOCAL4"@,
            OpCode::LoadLocal5 => "LOAD_LOCAL5"@,
            OpCode::LoadLocal6 => "LOAD_LOCAL6"@,
            OpCode::LoadLocal7 => "LOAD_LOCAL7"@,
            OpCode::LoadLocal8 => "LOAD_LOCAL8"@,
            OpCode::StoreLocal => "STORE_LOCAL"@,
            OpCode::StoreLocal0 => "STORE_LOCAL0"@,
            OpCode::StoreLocal1 => "STORE_LOCAL1"@,
            OpCode::StoreLocal2 => "STORE_LOCAL2"@,
            OpCode::StoreLocal3 => "STORE_LOCAL3"@,
            OpCode::StoreLocal4 => "STORE_LOCAL4"@,
            OpCode::StoreLocal5 => "STORE_LOCAL5"@,
            OpCode::StoreLocal6 => "STORE_LOCAL6"@,
            OpCode::StoreLocal7 => "STORE_LOCAL7"@,
            OpCode::StoreLocal8 => "STORE_LOCAL8"@,
            OpCode::LoadUpvalue => "LOAD_UPVALUE"@,
            OpCode::StoreUpvalue => "STORE_UPVALUE"@,
            OpCode::LoadField => "LOAD_FIELD"@,
            OpCode::StoreField => "STORE_FIELD"@,
            OpCode::LoadStatic => "LOAD_STATIC"@,
            OpCode::StoreStatic => "STORE_STATIC"@,
            OpCode::LoadMethod => "LOAD_METHOD"@,
            OpCode::LoadStaticMethod => "LOAD_STATIC_METHOD"@,
            OpCode::LoadSuperMethod => "LOAD_SUPER_METHOD"@,
            OpCode::JumpFwd => "JUMP_FWD"@,
            OpCode::JumpBack => "JUMP_BACK"@,
            OpCode::JumpTrue => "JUMP_TRUE"@,
            OpCode::JumpFalse => "JUMP_FALSE"@,
            OpCode::DefStatic => "DEF_STATIC"@,
            OpCode::Method => "METHOD"@,
            OpCode::StaticMethod => "STATIC_METHOD"@,
            OpCode::Instance => "INSTANCE"@,
            OpCode::Closure => "CLOSURE"@,
            OpCode::CloseUpvalue => "CLOSE_UPVALUE"@,
            OpCode::Call => "CALL"@,
            OpCode::Return => "RETURN"@,
            OpCode::Ternary => "TERNARY"@,
            OpCode::Neg => "NEG"@,
            OpCode::Print => "PRINT"@,
            OpCode::Println => "PRINTLN"@,
            OpCode::Input => "INPUT"@,
            OpCode::MathOp => "MATH"@,
            OpCode::BitwiseOp => "BITWISE"@,
            OpCode::MathAssignOp => "MATH_ASSIGN"@,
            OpCode::BitwiseAssignOp => "BITWISE_ASSIGN"@,
            OpCode::Invalid => "<INVALID>"@,
        }
    }

    /// The mnemonic under which the operator is listed.
    pub fn mnemonic(&self) -> (r: &'static str)
        ensures
            r@ == self.spec_mnemonic(),
    {
        match self {
            OpCode::PushN => "PUSHN",
            OpCode::Pop => "POP",
            OpCode::PopN => "POPN",
            OpCode::Dup => "DUP",
            OpCode::AddMod => "ADD_MODS",
            OpCode::SwitchMod => "SWITCH_MOD",
            OpCode::LoadTrue => "LOAD_TRUE",
            OpCode::LoadFalse => "LOAD_FALSE",
            OpCode::LoadNil => "LOAD_NIL",
            OpCode::Load0 => "LOAD0",
            OpCode::Load1 => "LOAD1",
            OpCode::Load2 => "LOAD2",
            OpCode::Load3 => "LOAD3",
            OpCode::Load4 => "LOAD4",
            OpCode::Load5 => "LOAD5",
            OpCode::Load6 => "LOAD6",
            OpCode::Load7 => "LOAD7",
            OpCode::Load8 => "LOAD8",
            OpCode::Load9 => "LOAD9",
            OpCode::Load10 => "LOAD10",
            OpCode::LoadValue => "LOAD_VALUE",
            OpCode::Array => "ARRAY",
            OpCode::Dict => "DICT",
            OpCode::DefVar => "DEF_VAR",
            OpCode::LoadVar => "LOAD_VAR",
            OpCode::StoreVar => "STORE_VAR",
            OpCode::LoadLocal => "LOAD_LOCAL",
            OpCode::LoadLocal0 => "LOAD_LOCAL0",
            OpCode::LoadLocal1 => "LOAD_LOCAL1",
            OpCode::LoadLocal2 => "LOAD_LOCAL2",
            OpCode::LoadLocal3 => "LOAD_LOCAL3",
            OpCode::LoadLocal4 => "LOAD_LOCAL4",
            OpCode::LoadLocal5 => "LOAD_LOCAL5",
            OpCode::LoadLocal6 => "LOAD_LOCAL6",
            OpCode::LoadLocal7 => "LOAD_LOCAL7",
            OpCode::LoadLocal8 => "LOAD_LOCAL8",
            OpCode::StoreLocal => "STORE_LOCAL",
            OpCode::StoreLocal0 => "STORE_LOCAL0",
            OpCode::StoreLocal1 => "STORE_LOCAL1",
            OpCode::StoreLocal2 => "STORE_LOCAL2",
            OpCode::StoreLocal3 => "STORE_LOCAL3",
            OpCode::StoreLocal4 => "STORE_LOCAL4",
            OpCode::StoreLocal5 => "STORE_LOCAL5",
            OpCode::StoreLocal6 => "STORE_LOCAL6",
            OpCode::StoreLocal7 => "STORE_LOCAL7",
            OpCode::StoreLocal8 => "STORE_LOCAL8",
            OpCode::LoadUpvalue => "LOAD_UPVALUE",
            OpCode::StoreUpvalue => "STORE_UPVALUE",
            OpCode::LoadField => "LOAD_FIELD",
            OpCode::StoreField => "STORE_FIELD",
            OpCode::LoadStatic => "LOAD_STATIC",
            OpCode::StoreStatic => "STORE_STATIC",
            OpCode::LoadMethod => "LOAD_METHOD",
            OpCode::LoadStaticMethod => "LOAD_STATIC_METHOD",
            OpCode::LoadSuperMethod => "LOAD_SUPER_METHOD",
            OpCode::JumpFwd => "JUMP_FWD",
            OpCode::JumpBack => "JUMP_BACK",
            OpCode::JumpTrue => "JUMP_TRUE",
            OpCode::JumpFalse => "JUMP_FALSE",
            OpCode::DefStatic => "DEF_STATIC",
            OpCode::Method => "METHOD",
            OpCode::StaticMethod => "STATIC_METHOD",
            OpCode::Instance => "INSTANCE",
            OpCode::Closure => "CLOSURE",
            OpCode::CloseUpvalue => "CLOSE_UPVALUE",
            OpCode::Call => "CALL",
            OpCode::Return => "RETURN",
            OpCode::Ternary => "TERNARY",
            OpCode::Neg => "NEG",
            OpCode::Print => "PRINT",
            OpCode::Println => "PRINTLN",
            OpCode::Input => "INPUT",
            OpCode::MathOp => "MATH",
            OpCode::BitwiseOp => "BITWISE",
            OpCode::MathAssignOp => "MATH_ASSIGN",
            OpCode::BitwiseAssignOp => "BITWISE_ASSIGN",
            OpCode::Invalid => "<INVALID>",
        }
    }
}

impl From<u8> for OpCode {
    fn from(v: u8) -> (r: OpCode)
        ensures
            r == OpCode::spec_from_byte(v),
    {
        match v {
            0 => OpCode::PushN,
            1 => OpCode::Pop,
            2 => OpCode::PopN,
            3 => OpCode::Dup,
            4 => OpCode::AddMod,
            5 => OpCode::SwitchMod,
            6 => OpCode::LoadTrue,
            7 => OpCode::LoadFalse,
            8 => OpCode::LoadNil,
            9 => OpCode::Load0,
            10 => OpCode::Load1,
            11 => OpCode::Load2,
            12 => OpCode::Load3,
            13 => OpCode::Load4,
            14 => OpCode::Load5,
            15 => OpCode::Load6,
            16 => OpCode::Load7,
            17 => OpCode::Load8,
            18 => OpCode::Load9,
            19 => OpCode::Load10,
            20 => OpCode::LoadValue,
            21 => OpCode::Array,
            22 => OpCode::Dict,
            23 => OpCode::DefVar,
            24 => OpCode::LoadVar,
            25 => OpCode::StoreVar,
            26 => OpCode::LoadLocal,
            27 => OpCode::LoadLocal0,
            28 => OpCode::LoadLocal1,
            29 => OpCode::LoadLocal2,
            30 => OpCode::LoadLocal3,
            31 => OpCode::LoadLocal4,
            32 => OpCode::LoadLocal5,
            33 => OpCode::LoadLocal6,
            34 => OpCode::LoadLocal7,
            35 => OpCode::LoadLocal8,
            36 => OpCode::StoreLocal,
            37 => OpCode::StoreLocal0,
            38 => OpCode::StoreLocal1,
            39 => OpCode::StoreLocal2,
            40 => OpCode::StoreLocal3,
            41 => OpCode::StoreLocal4,
            42 => OpCode::StoreLocal5,
            43 => OpCode::StoreLocal6,
            44 => OpCode::StoreLocal7,
            45 => OpCode::StoreLocal8,
            46 => OpCode::LoadUpvalue,
            47 => OpCode::StoreUpvalue,
            48 => OpCode::LoadField,
            49 => OpCode::StoreField,
            50 => OpCode::LoadStatic,
            51 => OpCode::StoreStatic,
            52 => OpCode::LoadMethod,
            53 => OpCode::LoadStaticMethod,
            54 => OpCode::LoadSuperMethod,
            55 => OpCode::JumpFwd,
            56 => OpCode::JumpBack,
            57 => OpCode::JumpTrue,
            58 => OpCode::JumpFalse,
            59 => OpCode::DefStatic,
            60 => OpCode::Method,
            61 => OpCode::StaticMethod,
            62 => OpCode::Instance,
            63 => OpCode::Closure,
            64 => OpCode::CloseUpvalue,
            65 => OpCode::Call,
            66 => OpCode::Return,
            67 => OpCode::Ternary,
            68 => OpCode::Neg,
            69 => OpCode::Print,
            70 => OpCode::Println,
            71 => OpCode::Input,
            72 => OpCode::MathOp,
            73 => OpCode::BitwiseOp,
            74 => OpCode::MathAssignOp,
            75 => OpCode::BitwiseAssignOp,
            _ => OpCode::Invalid,
        }
    }
}

impl vstd::std_specs::convert::FromSpecImpl<u8> for OpCode {
    open spec fn obeys_from_spec() -> bool {
        true
    }

    open spec fn from_spec(v: u8) -> OpCode {
        OpCode::spec_from_byte(v)
    }
}

impl From<OpCode> for u8 {
    fn from(v: OpCode) -> (r: u8)
        ensures
            r == v.spec_to_byte(),
    {
        match v {
            OpCode::PushN => 0,
            OpCode::Pop => 1,
            OpCode::PopN => 2,
            OpCode::Dup => 3,
            OpCode::AddMod => 4,
            OpCode::SwitchMod => 5,
            OpCode::LoadTrue => 6,
            OpCode::LoadFalse => 7,
            OpCode::LoadNil => 8,
            OpCode::Load0 => 9,
            OpCode::Load1 => 10,
            OpCode::Load2 => 11,
            OpCode::Load3 => 12,
            OpCode::Load4 => 13,
            OpCode::Load5 => 14,
            OpCode::Load6 => 15,
            OpCode::Load7 => 16,
            OpCode::Load8 => 17,
            OpCode::Load9 => 18,
            OpCode::Load10 => 19,
            OpCode::LoadValue => 20,
            OpCode::Array => 21,
            OpCode::Dict => 22,
            OpCode::DefVar => 23,
            OpCode::LoadVar => 24,
            OpCode::StoreVar => 25,
            OpCode::LoadLocal => 26,
            OpCode::LoadLocal0 => 27,
            OpCode::LoadLocal1 => 28,
            OpCode::LoadLocal2 => 29,
            OpCode::LoadLocal3 => 30,
            OpCode::LoadLocal4 => 31,
            OpCode::LoadLocal5 => 32,
            OpCode::LoadLocal6 => 33,
            OpCode::LoadLocal7 => 34,
            OpCode::LoadLocal8 => 35,
            OpCode::StoreLocal => 36,
            OpCode::StoreLocal0 => 37,
            OpCode::StoreLocal1 => 38,
            OpCode::StoreLocal2 => 39,
            OpCode::StoreLocal3 => 40,
            OpCode::StoreLocal4 => 41,
            OpCode::StoreLocal5 => 42,
            OpCode::StoreLocal6 => 43,
            OpCode::StoreLocal7 => 44,
            OpCode::StoreLocal8 => 45,
            OpCode::LoadUpvalue => 46,
            OpCode::StoreUpvalue => 47,
            OpCode::LoadField => 48,
            OpCode::StoreField => 49,
            OpCode::LoadStatic => 50,
            OpCode::StoreStatic => 51,
            OpCode::LoadMethod => 52,
            OpCode::LoadStaticMethod => 53,
            OpCode::LoadSuperMethod => 54,
            OpCode::JumpFwd => 55,
            OpCode::JumpBack => 56,
            OpCode::JumpTrue => 57,
            OpCode::JumpFalse => 58,
            OpCode::DefStatic => 59,
            OpCode::Method => 60,
            OpCode::StaticMethod => 61,
            OpCode::Instance => 62,
            OpCode::Closure => 63,
            OpCode::CloseUpvalue => 64,
            OpCode::Call => 65,
            OpCode::Return => 66,
            OpCode::Ternary => 67,
            OpCode::Neg => 68,
            OpCode::Print => 69,
            OpCode::Println => 70,
            OpCode::Input => 71,
            OpCode::MathOp => 72,
            OpCode::BitwiseOp => 73,
            OpCode::MathAssignOp => 74,
            OpCode::BitwiseAssignOp => 75,
            OpCode::Invalid => 76,
        }
    }
}

impl vstd::std_specs::convert::FromSpecImpl<OpCode> for u8 {
    open spec fn obeys_from_spec() -> bool {
        true
    }

    open spec fn from_spec(v: OpCode) -> u8 {
        v.spec_to_byte()
    }
}

/// Decoding the byte that encodes an operator gives back that operator.
pub proof fn lemma_math_op_encode_decode(op: MathOp)
    ensures
        MathOp::spec_from_byte(op.spec_to_byte()) == op,
{
}

/// Every byte below the code of `Invalid` encodes an operator whose code is
/// that byte; every byte from there up decodes to `Invalid`.
pub proof fn lemma_math_op_decode_encode(b: u8)
    ensures
        b < MathOp::Invalid.spec_to_byte() ==> MathOp::spec_from_byte(b).spec_to_byte() == b,
        b >= MathOp::Invalid.spec_to_byte() ==> MathOp::spec_from_byte(b) == MathOp::Invalid,
{
}

/// Decoding the byte that encodes an operator gives back that operator.
pub proof fn lemma_bitwise_op_encode_decode(op: BitwiseOp)
    ensures
        BitwiseOp::spec_from_byte(op.spec_to_byte()) == op,
{
}

/// Every byte below the code of `Invalid` encodes an operator whose code is
/// that byte; every byte from there up decodes to `Invalid`.
pub proof fn lemma_bitwise_op_decode_encode(b: u8)
    ensures
        b < BitwiseOp::Invalid.spec_to_byte() ==> BitwiseOp::spec_from_byte(b).spec_to_byte() == b,
        b >= BitwiseOp::Invalid.spec_to_byte() ==> BitwiseOp::spec_from_byte(b) == BitwiseOp::Invalid,
{
}

/// Decoding the byte that encodes an operator gives back that operator.
pub proof fn lemma_opcode_encode_decode(op: OpCode)
    ensures
        OpCode::spec_from_byte(op.spec_to_byte()) == op,
{
}

/// Every byte below the code of `Invalid` encodes an operator whose code is
/// that byte; every byte from there up decodes to `Invalid`.
pub proof fn lemma_opcode_decode_encode(b: u8)
    ensures
        b < OpCode::Invalid.spec_to_byte() ==> OpCode::spec_from_byte(b).spec_to_byte() == b,
        b >= OpCode::Invalid.spec_to_byte() ==> OpCode::spec_from_byte(b) == OpCode::Invalid,
{
}

} // verus!
