//! The instruction set as a closed sum type, and the meaning of each
//! sixteen-bit instruction word.

use vstd::prelude::*;
use super::register::Register;

verus! {

/// The tallest sprite that a draw instruction can name: its height operand is
/// four bits wide.
pub const MAX_SPRITE_HEIGHT: u8 = 15;

/// A decoded instruction together with its operands.
#[allow(clippy::upper_case_acronyms)]
#[derive(Debug, Clone, Copy, PartialEq, Eq, Structural)]
pub enum Opcode {
    /// `0nnn`: call a native routine; kept as an operation without effect.
    SYS(u16),
    /// `00E0`: clear the display.
    CLS,
    /// `00EE`: return from a subroutine.
    RET,
    /// `1nnn`: jump to `nnn`.
    JP(u16),
    /// `2nnn`: call the subroutine at `nnn`.
    CALL(u16),
    /// `3xkk`: skip the next instruction if `Vx == kk`.
    SEI(Register, u8),
    /// `4xkk`: skip the next instruction if `Vx != kk`.
    SNEI(Register, u8),
    /// `5xy_`: skip the next instruction if `Vx == Vy`.
    SE(Register, Register),
    /// `6xkk`: `Vx = kk`.
    LDI(Register, u8),
    /// `7xkk`: `Vx = Vx + kk`, without touching the flag.
    ADDI(Register, u8),
    /// `8xy0`: `Vx = Vy`.
    LD(Register, Register),
    /// `8xy1`: `Vx = Vx | Vy`.
    OR(Register, Register),
    /// `8xy2`: `Vx = Vx & Vy`.
    AND(Register, Register),
    /// `8xy3`: `Vx = Vx ^ Vy`.
    XOR(Register, Register),
    /// `8xy4`: `Vx = Vx + Vy`, flag = carry.
    ADD(Register, Register),
    /// `8xy5`: `Vx = Vx - Vy`, flag = no borrow.
    SUBR(Register, Register),
    /// `8x_6`: `Vx = Vx >> 1`, flag = the bit shifted out.
    SHR(Register),
    /// `8xy7`: `Vx = Vy - Vx`, flag = no borrow.
    SUBN(Register, Register),
    /// `8x_E`: `Vx = Vx << 1`, flag = the bit shifted out.
    SHL(Register),
    /// `9xy0`: skip the next instruction if `Vx != Vy`.
    SNE(Register, Register),
    /// `Annn`: `I = nnn`.
    LDII(u16),
    /// `Bnnn`: jump to `nnn + V0`.
    JPA(u16),
    /// `Cxkk`: `Vx = random byte & kk`.
    RND(Register, u8),
    /// `Dxyn`: draw the `n`-row sprite at `I` at position `(Vx, Vy)`, flag = collision.
    DRW(Register, Register, u8),
    /// `Ex9E`: skip the next instruction if the key `Vx` is held.
    SKP(Register),
    /// `ExA1`: skip the next instruction if the key `Vx` is not held.
    SKNP(Register),
    /// `Fx07`: `Vx = delay timer`.
    LDVDT(Register),
    /// `Fx0A`: `Vx = lowest held key`, if any key is held.
    LDK(Register),
    /// `Fx15`: `delay timer = Vx`.
    LDDTV(Register),
    /// `Fx18`: `sound timer = Vx`.
    LDST(Register),
    /// `Fx1E`: `I = I + Vx`.
    ADDRI(Register),
    /// `Fx29`: `I = address of the glyph for Vx`.
    LDF(Register),
    /// `Fx33`: store the three decimal digits of `Vx` at `I`, `I + 1`, `I + 2`.
    LDB(Register),
    /// `Fx55`: store `V0..=Vx` at `I..`.
    LDIM(Register),
    /// `Fx65`: load `V0..=Vx` from `I..`.
    LDMI(Register),
}

impl Opcode {
    /// An opcode is well formed when each register that it names is one of
    /// the sixteen.
    pub open spec fn wf(self) -> bool {
        match self {
            Opcode::SYS(_) | Opcode::CLS | Opcode::RET | Opcode::JP(_) | Opcode::CALL(_)
            | Opcode::LDII(_) | Opcode::JPA(_) => true,
            Opcode::SEI(x, _) | Opcode::SNEI(x, _) | Opcode::LDI(x, _) | Opcode::ADDI(x, _)
            | Opcode::RND(x, _) | Opcode::SHR(x) | Opcode::SHL(x) | Opcode::SKP(x)
            | Opcode::SKNP(x) | Opcode::LDVDT(x) | Opcode::LDK(x) | Opcode::LDDTV(x)
            | Opcode::LDST(x) | Opcode::ADDRI(x) | Opcode::LDF(x) | Opcode::LDB(x)
            | Opcode::LDIM(x) | Opcode::LDMI(x) => x.wf(),
            Opcode::SE(x, y) | Opcode::LD(x, y) | Opcode::OR(x, y) | Opcode::AND(x, y)
            | Opcode::XOR(x, y) | Opcode::ADD(x, y) | Opcode::SUBR(x, y) | Opcode::SUBN(x, y)
            | Opcode::SNE(x, y) | Opcode::DRW(x, y, _) => x.wf() && y.wf(),
        }
    }
}

/// The instruction family: the most significant nibble of the word.
pub open spec fn family(word: u16) -> u16 {
    word / 0x1000
}

/// The first register operand: the second nibble of the word.
pub open spec fn operand_x(word: u16) -> Register {
    Register { id: ((word / 0x100) % 0x10) as u8 }
}

/// The second register operand: the third nibble of the word.
pub open spec fn operand_y(word: u16) -> Register {
    Register { id: ((word / 0x10) % 0x10) as u8 }
}

/// The four-bit operand: the least significant nibble of the word.
pub open spec fn operand_n(word: u16) -> u8 {
    (word % 0x10) as u8
}

/// The eight-bit immediate: the low byte of the word.
pub open spec fn operand_kk(word: u16) -> u8 {
    (word % 0x100) as u8
}

/// The twelve-bit address: the low three nibbles of the word.
pub open spec fn operand_nnn(word: u16) -> u16 {
    word % 0x1000
}

/// The operation of family 8 that the low nibble selects, if any.
pub open spec fn decoded_arithmetic(word: u16) -> Option<Opcode> {
    let x = operand_x(word);
    let y = operand_y(word);
    let n = operand_n(word);
    if n == 0x0 {
        Some(Opcode::LD(x, y))
    } else if n == 0x1 {
        Some(Opcode::OR(x, y))
    } else if n == 0x2 {
        Some(Opcode::AND(x, y))
    } else if n == 0x3 {
        Some(Opcode::XOR(x, y))
    } else if n == 0x4 {
        Some(Opcode::ADD(x, y))
    } else if n == 0x5 {
        Some(Opcode::SUBR(x, y))
    } else if n == 0x6 {
        Some(Opcode::SHR(x))
    } else if n == 0x7 {
        Some(Opcode::SUBN(x, y))
    } else if n == 0xe {
        Some(Opcode::SHL(x))
    } else {
        None
    }
}

/// The operation of family E that the low byte selects, if any.
pub open spec fn decoded_keypad(word: u16) -> Option<Opcode> {
    let x = operand_x(word);
    let kk = operand_kk(word);
    if kk == 0x9e {
        Some(Opcode::SKP(x))
    } else if kk == 0xa1 {
        Some(Opcode::SKNP(x))
    } else {
        None
    }
}

/// The operation of family F that the low byte selects, if any.
pub open spec fn decoded_misc(word: u16) -> Option<Opcode> {
    let x = operand_x(word);
    let kk = operand_kk(word);
    if kk == 0x07 {
        Some(Opcode::LDVDT(x))
    } else if kk == 0x0a {
        Some(Opcode::LDK(x))
    } else if kk == 0x15 {
        Some(Opcode::LDDTV(x))
    } else if kk == 0x18 {
        Some(Opcode::LDST(x))
    } else if kk == 0x1e {
        Some(Opcode::ADDRI(x))
    } else if kk == 0x29 {
        Some(Opcode::LDF(x))
    } else if kk == 0x33 {
        Some(Opcode::LDB(x))
    } else if kk == 0x55 {
        Some(Opcode::LDIM(x))
    } else if kk == 0x65 {
        Some(Opcode::LDMI(x))
    } else {
        None
    }
}

/// The meaning of an instruction word: the one opcode that it encodes, or
/// `None` where the word matches no defined operation.
pub open spec fn decoded(word: u16) -> Option<Opcode> {
    let x = operand_x(word);
    let y = operand_y(word);
    let kk = operand_kk(word);
    let nnn = operand_nnn(word);
    let f = family(word);
    if f == 0x0 {
        if word == 0x00e0 {
            Some(Opcode::CLS)
        } else if word == 0x00ee {
            Some(Opcode::RET)
        } else {
            Some(Opcode::SYS(nnn))
        }
    } else if f == 0x1 {
        Some(Opcode::JP(nnn))
    } else if f == 0x2 {
        Some(Opcode::CALL(nnn))
    } else if f == 0x3 {
        Some(Opcode::SEI(x, kk))
    } else if f == 0x4 {
        Some(Opcode::SNEI(x, kk))
    } else if f == 0x5 {
        Some(Opcode::SE(x, y))
    } else if f == 0x6 {
        Some(Opcode::LDI(x, kk))
    } else if f == 0x7 {
        Some(Opcode::ADDI(x, kk))
    } else if f == 0x8 {
        decoded_arithmetic(word)
    } else if f == 0x9 {
        if operand_n(word) == 0 {
            Some(Opcode::SNE(x, y))
        } else {
            None
        }
    } else if f == 0xa {
        Some(Opcode::LDII(nnn))
    } else if f == 0xb {
        Some(Opcode::JPA(nnn))
    } else if f == 0xc {
        Some(Opcode::RND(x, kk))
    } else if f == 0xd {
        Some(Opcode::DRW(x, y, operand_n(word)))
    } else if f == 0xe {
        decoded_keypad(word)
    } else {
        decoded_misc(word)
    }
}

/// Every opcode that an instruction word encodes is well formed, its address
/// operand fits twelve bits, and a sprite that it draws has at most fifteen
/// rows.
pub proof fn lemma_decoded_wf(word: u16)
    ensures
        decoded(word) matches Some(opcode) ==> opcode.wf() && match opcode {
            Opcode::SYS(nnn) | Opcode::JP(nnn) | Opcode::CALL(nnn) | Opcode::LDII(nnn)
            | Opcode::JPA(nnn) => nnn <= 0xfff,
            Opcode::DRW(_, _, n) => n <= MAX_SPRITE_HEIGHT,
            _ => true,
        },
{
}

/// A word fails to decode exactly in these cases: in family 8 its low nibble
/// is none of 0 to 7 and E; in family 9 its low nibble is not 0; in family E
/// its low byte is neither 9E nor A1; in family F its low byte is none of 07,
/// 0A, 15, 18, 1E, 29, 33, 55 and 65.
pub proof fn lemma_malformed(word: u16)
    ensures
        decoded(word) is None <==> {
            let n = operand_n(word);
            let kk = operand_kk(word);
            ||| family(word) == 0x8 && (8 <= n <= 0xd || n == 0xf)
            ||| family(word) == 0x9 && n != 0
            ||| family(word) == 0xe && kk != 0x9e && kk != 0xa1
            ||| family(word) == 0xf && kk != 0x07 && kk != 0x0a && kk != 0x15 && kk != 0x18 && kk
                != 0x1e && kk != 0x29 && kk != 0x33 && kk != 0x55 && kk != 0x65
        },
{
}

} // verus!
