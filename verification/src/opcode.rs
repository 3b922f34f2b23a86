//! Instruction decoding: a 16-bit word is split into its conventional
//! fields (top nibble selects the family; the remaining nibbles carry
//! register indices, an immediate byte, or a 12-bit address) and turned
//! into a tagged instruction value.  A word no family matches decodes to
//! an explicit `Unknown` tag carrying the raw word, never an error.

use vstd::prelude::*;

verus! {

/// The addition family.
#[derive(Clone, Copy, Debug, PartialEq, Eq, Structural)]
pub enum AddOp {
    /// `7xkk`: add the immediate to `Vx`; the flag register is untouched.
    ADD(u8, u8),
    /// `8xy4`: add `Vy` to `Vx`; `VF` receives the carry.
    ADDREG(u8, u8),
    /// `Fx1E`: add `Vx` to the index register, modulo 4096.
    ADDI(u8),
}

/// The jump family.
#[derive(Clone, Copy, Debug, PartialEq, Eq, Structural)]
pub enum JumpOp {
    /// `1nnn`: jump to `nnn`.
    JP(u16),
    /// `Bnnn`: jump to `nnn + V0`, modulo 4096.
    JPV0(u16),
}

/// The load/store family.
#[derive(Clone, Copy, Debug, PartialEq, Eq, Structural)]
pub enum LoadOp {
    /// `6xkk`: `Vx = kk`.
    LD(u8, u8),
    /// `8xy0`: `Vx = Vy`.
    LDXY(u8, u8),
    /// `Annn`: `I = nnn`.
    LDI(u16),
    /// `Fx07`: `Vx = delay timer`.
    LDVXDT(u8),
    /// `Fx0A`: wait for a key press, then `Vx = key`.
    LDKEY(u8),
    /// `Fx15`: `delay timer = Vx`.
    LDDTVX(u8),
    /// `Fx18`: `sound timer = Vx`.
    LDSTVX(u8),
    /// `Fx29`: `I` = address of the font sprite for digit `Vx`.
    LDF(u8),
    /// `Fx33`: store the BCD digits of `Vx` at `I`, `I+1`, `I+2`.
    LDB(u8),
    /// `Fx55`: store `V0..=Vx` to memory starting at `I`.
    LDIV0X(u8),
    /// `Fx65`: load `V0..=Vx` from memory starting at `I`.
    LDV0XI(u8),
}

/// The conditional-skip family.
#[derive(Clone, Copy, Debug, PartialEq, Eq, Structural)]
pub enum SkipOp {
    /// `3xkk`: skip the next instruction if `Vx == kk`.
    SE(u8, u8),
    /// `4xkk`: skip if `Vx != kk`.
    SNE(u8, u8),
    /// `5xy0`: skip if `Vx == Vy`.
    SEXY(u8, u8),
    /// `9xy0`: skip if `Vx != Vy`.
    SNEXY(u8, u8),
    /// `Ex9E`: skip if the key numbered `Vx` is pressed.
    SKP(u8),
    /// `ExA1`: skip if the key numbered `Vx` is not pressed.
    SKNP(u8),
}

/// The shift family.
#[derive(Clone, Copy, Debug, PartialEq, Eq, Structural)]
pub enum ShiftOp {
    /// `8xy6`: shift `Vx` right by one; `VF` receives the shifted-out bit.
    SHR(u8),
    /// `8xyE`: shift `Vx` left by one; `VF` receives the shifted-out bit.
    SHL(u8),
}

/// One decoded instruction.
#[derive(Clone, Copy, Debug, PartialEq, Eq, Structural)]
pub enum OpCode {
    /// `00E0`: clear the display.
    CLS,
    /// `00EE`: return from a subroutine.
    RET,
    JP(JumpOp),
    /// `2nnn`: call the subroutine at `nnn`.
    CALL(u16),
    SKIP(SkipOp),
    LD(LoadOp),
    ADD(AddOp),
    /// `8xy1`: `Vx |= Vy`; `VF` untouched.
    OR(u8, u8),
    /// `8xy2`: `Vx &= Vy`; `VF` untouched.
    AND(u8, u8),
    /// `8xy3`: `Vx ^= Vy`; `VF` untouched.
    XOR(u8, u8),
    /// `8xy5`: `Vx -= Vy`; `VF` = 1 when no borrow occurred.
    SUB(u8, u8),
    /// `8xy7`: `Vx = Vy - Vx`; `VF` = 1 when no borrow occurred.
    SUBN(u8, u8),
    SHIFT(ShiftOp),
    /// `Cxkk`: `Vx` = a random byte masked with `kk`.
    RND(u8, u8),
    /// `Dxyn`: draw the `n`-row sprite at `I` at position `(Vx, Vy)`;
    /// `VF` = collision.
    DRW(u8, u8, u8),
    /// Any word no family matches: executed as a no-op.
    Unknown(u16),
}

/// The `x` register field: bits 8..12.
pub open spec fn op_x(w: u16) -> u8 {
    ((w >> 8) & 0xF) as u8
}

/// The `y` register field: bits 4..8.
pub open spec fn op_y(w: u16) -> u8 {
    ((w >> 4) & 0xF) as u8
}

/// The immediate byte: bits 0..8.
pub open spec fn op_kk(w: u16) -> u8 {
    (w & 0xFF) as u8
}

/// The 12-bit address field: bits 0..12.
pub open spec fn op_nnn(w: u16) -> u16 {
    w & 0xFFF
}

/// The low nibble: bits 0..4.
pub open spec fn op_n(w: u16) -> u8 {
    (w & 0xF) as u8
}

/// The meaning of every 16-bit instruction word.
pub open spec fn decode_spec(w: u16) -> OpCode {
    let f = w >> 12;
    if f == 0x0 {
        if w == 0x00E0 {
            OpCode::CLS
        } else if w == 0x00EE {
            OpCode::RET
        } else {
            OpCode::Unknown(w)
        }
    } else if f == 0x1 {
        OpCode::JP(JumpOp::JP(op_nnn(w)))
    } else if f == 0x2 {
        OpCode::CALL(op_nnn(w))
    } else if f == 0x3 {
        OpCode::SKIP(SkipOp::SE(op_x(w), op_kk(w)))
    } else if f == 0x4 {
        OpCode::SKIP(SkipOp::SNE(op_x(w), op_kk(w)))
    } else if f == 0x5 {
        if op_n(w) == 0 {
            OpCode::SKIP(SkipOp::SEXY(op_x(w), op_y(w)))
        } else {
            OpCode::Unknown(w)
        }
    } else if f == 0x6 {
        OpCode::LD(LoadOp::LD(op_x(w), op_kk(w)))
    } else if f == 0x7 {
        OpCode::ADD(AddOp::ADD(op_x(w), op_kk(w)))
    } else if f == 0x8 {
        let n = op_n(w);
        if n == 0x0 {
            OpCode::LD(LoadOp::LDXY(op_x(w), op_y(w)))
        } else if n == 0x1 {
            OpCode::OR(op_x(w), op_y(w))
        } else if n == 0x2 {
            OpCode::AND(op_x(w), op_y(w))
        } else if n == 0x3 {
            OpCode::XOR(op_x(w), op_y(w))
        } else if n == 0x4 {
            OpCode::ADD(AddOp::ADDREG(op_x(w), op_y(w)))
        } else if n == 0x5 {
            OpCode::SUB(op_x(w), op_y(w))
        } else if n == 0x6 {
            OpCode::SHIFT(ShiftOp::SHR(op_x(w)))
        } else if n == 0x7 {
            OpCode::SUBN(op_x(w), op_y(w))
        } else if n == 0xE {
            OpCode::SHIFT(ShiftOp::SHL(op_x(w)))
        } else {
            OpCode::Unknown(w)
        }
    } else if f == 0x9 {
        if op_n(w) == 0 {
            OpCode::SKIP(SkipOp::SNEXY(op_x(w), op_y(w)))
        } else {
            OpCode::Unknown(w)
        }
    } else if f == 0xA {
        OpCode::LD(LoadOp::LDI(op_nnn(w)))
    } else if f == 0xB {
        OpCode::JP(JumpOp::JPV0(op_nnn(w)))
    } else if f == 0xC {
        OpCode::RND(op_x(w), op_kk(w))
    } else if f == 0xD {
        OpCode::DRW(op_x(w), op_y(w), op_n(w))
    } else if f == 0xE {
        if op_kk(w) == 0x9E {
            OpCode::SKIP(SkipOp::SKP(op_x(w)))
        } else if op_kk(w) == 0xA1 {
            OpCode::SKIP(SkipOp::SKNP(op_x(w)))
        } else {
            OpCode::Unknown(w)
        }
    } else {
        let kk = op_kk(w);
        if kk == 0x07 {
            OpCode::LD(LoadOp::LDVXDT(op_x(w)))
        } else if kk == 0x0A {
            OpCode::LD(LoadOp::LDKEY(op_x(w)))
        } else if kk == 0x15 {
            OpCode::LD(LoadOp::LDDTVX(op_x(w)))
        } else if kk == 0x18 {
            OpCode::LD(LoadOp::LDSTVX(op_x(w)))
        } else if kk == 0x1E {
            OpCode::ADD(AddOp::ADDI(op_x(w)))
        } else if kk == 0x29 {
            OpCode::LD(LoadOp::LDF(op_x(w)))
        } else if kk == 0x33 {
            OpCode::LD(LoadOp::LDB(op_x(w)))
        } else if kk == 0x55 {
            OpCode::LD(LoadOp::LDIV0X(op_x(w)))
        } else if kk == 0x65 {
            OpCode::LD(LoadOp::LDV0XI(op_x(w)))
        } else {
            OpCode::Unknown(w)
        }
    }
}

/// Decodes one instruction word.
pub fn decode(w: u16) -> (op: OpCode)
    ensures
        op == decode_spec(w),
{
    proof {
        assert((w >> 12) <= 0xF && ((w >> 8) & 0xF) <= 0xF && ((w >> 4) & 0xF) <= 0xF && (w & 0xFF)
            <= 0xFF && (w & 0xFFF) <= 0xFFF && (w & 0xF) <= 0xF) by (bit_vector);
    }
    let f = w >> 12;
    let x = ((w >> 8) & 0xF) as u8;
    let y = ((w >> 4) & 0xF) as u8;
    let kk = (w & 0xFF) as u8;
    let nnn = w & 0xFFF;
    let n = (w & 0xF) as u8;
    if f == 0x0 {
        if w == 0x00E0 {
            OpCode::CLS
        } else if w == 0x00EE {
            OpCode::RET
        } else {
            OpCode::Unknown(w)
        }
    } else if f == 0x1 {
        OpCode::JP(JumpOp::JP(nnn))
    } else if f == 0x2 {
        OpCode::CALL(nnn)
    } else if f == 0x3 {
        OpCode::SKIP(SkipOp::SE(x, kk))
    } else if f == 0x4 {
        OpCode::SKIP(SkipOp::SNE(x, kk))
    } else if f == 0x5 {
        if n == 0 {
            OpCode::SKIP(SkipOp::SEXY(x, y))
        } else {
            OpCode::Unknown(w)
        }
    } else if f == 0x6 {
        OpCode::LD(LoadOp::LD(x, kk))
    } else if f == 0x7 {
        OpCode::ADD(AddOp::ADD(x, kk))
    } else if f == 0x8 {
        if n == 0x0 {
            OpCode::LD(LoadOp::LDXY(x, y))
        } else if n == 0x1 {
            OpCode::OR(x, y)
        } else if n == 0x2 {
            OpCode::AND(x, y)
        } else if n == 0x3 {
            OpCode::XOR(x, y)
        } else if n == 0x4 {
            OpCode::ADD(AddOp::ADDREG(x, y))
        } else if n == 0x5 {
            OpCode::SUB(x, y)
        } else if n == 0x6 {
            OpCode::SHIFT(ShiftOp::SHR(x))
        } else if n == 0x7 {
            OpCode::SUBN(x, y)
        } else if n == 0xE {
            OpCode::SHIFT(ShiftOp::SHL(x))
        } else {
            OpCode::Unknown(w)
        }
    } else if f == 0x9 {
        if n == 0 {
            OpCode::SKIP(SkipOp::SNEXY(x, y))
        } else {
            OpCode::Unknown(w)
        }
    } else if f == 0xA {
        OpCode::LD(LoadOp::LDI(nnn))
    } else if f == 0xB {
        OpCode::JP(JumpOp::JPV0(nnn))
    } else if f == 0xC {
        OpCode::RND(x, kk)
    } else if f == 0xD {
        OpCode::DRW(x, y, n)
    } else if f == 0xE {
        if kk == 0x9E {
            OpCode::SKIP(SkipOp::SKP(x))
        } else if kk == 0xA1 {
            OpCode::SKIP(SkipOp::SKNP(x))
        } else {
            OpCode::Unknown(w)
        }
    } else {
        if kk == 0x07 {
            OpCode::LD(LoadOp::LDVXDT(x))
        } else if kk == 0x0A {
            OpCode::LD(LoadOp::LDKEY(x))
        } else if kk == 0x15 {
            OpCode::LD(LoadOp::LDDTVX(x))
        } else if kk == 0x18 {
            OpCode::LD(LoadOp::LDSTVX(x))
        } else if kk == 0x1E {
            OpCode::ADD(AddOp::ADDI(x))
        } else if kk == 0x29 {
            OpCode::LD(LoadOp::LDF(x))
        } else if kk == 0x33 {
            OpCode::LD(LoadOp::LDB(x))
        } else if kk == 0x55 {
            OpCode::LD(LoadOp::LDIV0X(x))
        } else if kk == 0x65 {
            OpCode::LD(LoadOp::LDV0XI(x))
        } else {
            OpCode::Unknown(w)
        }
    }
}

/// The human-readable mnemonic of an instruction, for diagnostics.
pub open spec fn mnemonic_spec(op: OpCode) -> Seq<char> {
    match op {
        OpCode::CLS => "CLS"@,
        OpCode::RET => "RET"@,
        OpCode::JP(j) => match j {
            JumpOp::JP(_) => "JP addr"@,
            JumpOp::JPV0(_) => "JP V0, addr"@,
        },
        OpCode::CALL(_) => "CALL addr"@,
        OpCode::SKIP(s) => match s {
            SkipOp::SE(_, _) => "SE Vx, byte"@,
            SkipOp::SNE(_, _) => "SNE Vx, byte"@,
            SkipOp::SEXY(_, _) => "SE Vx, Vy"@,
            SkipOp::SNEXY(_, _) => "SNE Vx, Vy"@,
            SkipOp::SKP(_) => "SKP Vx"@,
            SkipOp::SKNP(_) => "SKNP Vx"@,
        },
        OpCode::LD(l) => match l {
            LoadOp::LD(_, _) => "LD Vx, byte"@,
            LoadOp::LDXY(_, _) => "LD Vx, Vy"@,
            LoadOp::LDI(_) => "LD I, addr"@,
            LoadOp::LDVXDT(_) => "LD Vx, DT"@,
            LoadOp::LDKEY(_) => "LD Vx, K"@,
            LoadOp::LDDTVX(_) => "LD DT, Vx"@,
            LoadOp::LDSTVX(_) => "LD ST, Vx"@,
            LoadOp::LDF(_) => "LD F, Vx"@,
            LoadOp::LDB(_) => "LD B, Vx"@,
            LoadOp::LDIV0X(_) => "LD [I], Vx"@,
            LoadOp::LDV0XI(_) => "LD Vx, [I]"@,
        },
        OpCode::ADD(a) => match a {
            AddOp::ADD(_, _) => "ADD Vx, byte"@,
            AddOp::ADDREG(_, _) => "ADD Vx, Vy"@,
            AddOp::ADDI(_) => "ADD I, Vx"@,
        },
        OpCode::OR(_, _) => "OR Vx, Vy"@,
        OpCode::AND(_, _) => "AND Vx, Vy"@,
        OpCode::XOR(_, _) => "XOR Vx, Vy"@,
        OpCode::SUB(_, _) => "SUB Vx, Vy"@,
        OpCode::SUBN(_, _) => "SUBN Vx, Vy"@,
        OpCode::SHIFT(s) => match s {
            ShiftOp::SHR(_) => "SHR Vx"@,
            ShiftOp::SHL(_) => "SHL Vx"@,
        },
        OpCode::RND(_, _) => "RND Vx, byte"@,
        OpCode::DRW(_, _, _) => "DRW Vx, Vy, n"@,
        OpCode::Unknown(_) => "Unknown"@,
    }
}

/// The mnemonic of an instruction as an owned string.
pub fn mnemonic(op: OpCode) -> (s: String)
    ensures
        s@ == mnemonic_spec(op),
{
    match op {
        OpCode::CLS => String::from_str("CLS"),
        OpCode::RET => String::from_str("RET"),
        OpCode::JP(j) => match j {
            JumpOp::JP(_) => String::from_str("JP addr"),
            JumpOp::JPV0(_) => String::from_str("JP V0, addr"),
        },
        OpCode::CALL(_) => String::from_str("CALL addr"),
        OpCode::SKIP(sk) => match sk {
            SkipOp::SE(_, _) => String::from_str("SE Vx, byte"),
            SkipOp::SNE(_, _) => String::from_str("SNE Vx, byte"),
            SkipOp::SEXY(_, _) => String::from_str("SE Vx, Vy"),
            SkipOp::SNEXY(_, _) => String::from_str("SNE Vx, Vy"),
            SkipOp::SKP(_) => String::from_str("SKP Vx"),
            SkipOp::SKNP(_) => String::from_str("SKNP Vx"),
        },
        OpCode::LD(l) => match l {
            LoadOp::LD(_, _) => String::from_str("LD Vx, byte"),
            LoadOp::LDXY(_, _) => String::from_str("LD Vx, Vy"),
            LoadOp::LDI(_) => String::from_str("LD I, addr"),
            LoadOp::LDVXDT(_) => String::from_str("LD Vx, DT"),
            LoadOp::LDKEY(_) => String::from_str("LD Vx, K"),
            LoadOp::LDDTVX(_) => String::from_str("LD DT, Vx"),
            LoadOp::LDSTVX(_) => String::from_str("LD ST, Vx"),
            LoadOp::LDF(_) => String::from_str("LD F, Vx"),
            LoadOp::LDB(_) => String::from_str("LD B, Vx"),
            LoadOp::LDIV0X(_) => String::from_str("LD [I], Vx"),
            LoadOp::LDV0XI(_) => String::from_str("LD Vx, [I]"),
        },
        OpCode::ADD(a) => match a {
            AddOp::ADD(_, _) => String::from_str("ADD Vx, byte"),
            AddOp::ADDREG(_, _) => String::from_str("ADD Vx, Vy"),
            AddOp::ADDI(_) => String::from_str("ADD I, Vx"),
        },
        OpCode::OR(_, _) => String::from_str("OR Vx, Vy"),
        OpCode::AND(_, _) => String::from_str("AND Vx, Vy"),
        OpCode::XOR(_, _) => String::from_str("XOR Vx, Vy"),
        OpCode::SUB(_, _) => String::from_str("SUB Vx, Vy"),
        OpCode::SUBN(_, _) => String::from_str("SUBN Vx, Vy"),
        OpCode::SHIFT(sh) => match sh {
            ShiftOp::SHR(_) => String::from_str("SHR Vx"),
            ShiftOp::SHL(_) => String::from_str("SHL Vx"),
        },
        OpCode::RND(_, _) => String::from_str("RND Vx, byte"),
        OpCode::DRW(_, _, _) => String::from_str("DRW Vx, Vy, n"),
        OpCode::Unknown(_) => String::from_str("Unknown"),
    }
}

/// Register fields always name one of the sixteen registers.
pub proof fn lemma_fields_in_range(w: u16)
    ensures
        op_x(w) < 16,
        op_y(w) < 16,
        op_n(w) < 16,
        op_nnn(w) < 4096,
{
    assert(((w >> 8) & 0xF) < 16 && ((w >> 4) & 0xF) < 16 && (w & 0xF) < 16 && (w & 0xFFF)
        < 4096) by (bit_vector);
}

} // verus!
