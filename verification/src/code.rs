//! The field encoder: fixed lookup tables from destination, computation and
//! jump mnemonics to their bit patterns, their composition into a 16-bit
//! compute-instruction word, and the rendering of any 16-bit word as a
//! 16-character binary string.

use vstd::prelude::*;
use vstd::arithmetic::div_mod::{lemma_fundamental_div_mod, lemma_mod_bound};
use vstd::arithmetic::power2::{lemma2_to64, pow2};
use vstd::string::StringExecFns;
use crate::error::{AsmError, ErrView};

verus! {

/// One compute instruction, split into its three mnemonic fields.  Any of
/// the fields may be empty; whether a field is a legal mnemonic is decided
/// by the encoder, not by the splitter that produced the value.
pub struct Instruction {
    pub dest: String,
    pub comp: String,
    pub jump: String,
}

/// The destination bit pattern (bits 5..3 of the word) for a destination
/// mnemonic, or `None` when the mnemonic is not in the table.  The spelling
/// `ADM` denotes the same destination set as `AMD` and encodes identically.
pub open spec fn spec_dest_code(s: Seq<char>) -> Option<u16> {
    if s.len() == 0 {
        Some(0b000000u16)
    } else if s.len() == 1 {
        if s[0] == 'M' {
            Some(0b001000u16)
        } else if s[0] == 'D' {
            Some(0b010000u16)
        } else if s[0] == 'A' {
            Some(0b100000u16)
        } else {
            None
        }
    } else if s.len() == 2 {
        if s[0] == 'M' && s[1] == 'D' {
            Some(0b011000u16)
        } else if s[0] == 'A' && s[1] == 'M' {
            Some(0b101000u16)
        } else if s[0] == 'A' && s[1] == 'D' {
            Some(0b110000u16)
        } else {
            None
        }
    } else if s.len() == 3 {
        if s[0] == 'A' && s[1] == 'M' && s[2] == 'D' {
            Some(0b111000u16)
        } else if s[0] == 'A' && s[1] == 'D' && s[2] == 'M' {
            Some(0b111000u16)
        } else {
            None
        }
    } else {
        None
    }
}

/// The computation bit pattern (the `a` bit together with bits 11..6) for a
/// computation mnemonic, or `None` when the mnemonic is not in the table.
pub open spec fn spec_comp_code(s: Seq<char>) -> Option<u16> {
    if s.len() == 1 {
        if s[0] == '0' {
            Some(0b0101010000000u16)
        } else if s[0] == '1' {
            Some(0b0111111000000u16)
        } else if s[0] == 'D' {
            Some(0b0001100000000u16)
        } else if s[0] == 'A' {
            Some(0b0110000000000u16)
        } else if s[0] == 'M' {
            Some(0b1110000000000u16)
        } else {
            None
        }
    } else if s.len() == 2 {
        if s[0] == '-' && s[1] == '1' {
            Some(0b0111010000000u16)
        } else if s[0] == '!' && s[1] == 'D' {
            Some(0b0001101000000u16)
        } else if s[0] == '!' && s[1] == 'A' {
            Some(0b0110001000000u16)
        } else if s[0] == '-' && s[1] == 'D' {
            Some(0b0001111000000u16)
        } else if s[0] == '-' && s[1] == 'A' {
            Some(0b0110011000000u16)
        } else if s[0] == '!' && s[1] == 'M' {
            Some(0b1110001000000u16)
        } else if s[0] == '-' && s[1] == 'M' {
            Some(0b1110011000000u16)
        } else {
            None
        }
    } else if s.len() == 3 {
        if s[0] == 'D' && s[1] == '+' && s[2] == '1' {
            Some(0b0011111000000u16)
        } else if s[0] == 'A' && s[1] == '+' && s[2] == '1' {
            Some(0b0110111000000u16)
        } else if s[0] == 'D' && s[1] == '-' && s[2] == '1' {
            Some(0b0001110000000u16)
        } else if s[0] == 'A' && s[1] == '-' && s[2] == '1' {
            Some(0b0110010000000u16)
        } else if s[0] == 'D' && s[1] == '+' && s[2] == 'A' {
            Some(0b0000010000000u16)
        } else if s[0] == 'D' && s[1] == '-' && s[2] == 'A' {
            Some(0b0010011000000u16)
        } else if s[0] == 'A' && s[1] == '-' && s[2] == 'D' {
            Some(0b0000111000000u16)
        } else if s[0] == 'D' && s[1] == '&' && s[2] == 'A' {
            Some(0b0000000000000u16)
        } else if s[0] == 'D' && s[1] == '|' && s[2] == 'A' {
            Some(0b0010101000000u16)
        } else if s[0] == 'M' && s[1] == '+' && s[2] == '1' {
            Some(0b1110111000000u16)
        } else if s[0] == 'M' && s[1] == '-' && s[2] == '1' {
            Some(0b1110010000000u16)
        } else if s[0] == 'D' && s[1] == '+' && s[2] == 'M' {
            Some(0b1000010000000u16)
        } else if s[0] == 'D' && s[1] == '-' && s[2] == 'M' {
            Some(0b1010011000000u16)
        } else if s[0] == 'M' && s[1] == '-' && s[2] == 'D' {
            Some(0b1000111000000u16)
        } else if s[0] == 'D' && s[1] == '&' && s[2] == 'M' {
            Some(0b1000000000000u16)
        } else if s[0] == 'D' && s[1] == '|' && s[2] == 'M' {
            Some(0b1010101000000u16)
        } else {
            None
        }
    } else {
        None
    }
}

/// The jump bit pattern (bits 2..0) for a jump mnemonic, or `None` when the
/// mnemonic is not in the table.
pub open spec fn spec_jump_code(s: Seq<char>) -> Option<u16> {
    if s.len() == 0 {
        Some(0b000u16)
    } else if s.len() == 3 && s[0] == 'J' {
        if s[1] == 'G' && s[2] == 'T' {
            Some(0b001u16)
        } else if s[1] == 'E' && s[2] == 'Q' {
            Some(0b010u16)
        } else if s[1] == 'G' && s[2] == 'E' {
            Some(0b011u16)
        } else if s[1] == 'L' && s[2] == 'T' {
            Some(0b100u16)
        } else if s[1] == 'N' && s[2] == 'E' {
            Some(0b101u16)
        } else if s[1] == 'L' && s[2] == 'E' {
            Some(0b110u16)
        } else if s[1] == 'M' && s[2] == 'P' {
            Some(0b111u16)
        } else {
            None
        }
    } else {
        None
    }
}

/// The 16-bit word of a compute instruction: the fixed prefix `111` over the
/// three field encodings, or `None` when any field is not in its table.
pub open spec fn spec_encode(d: Seq<char>, c: Seq<char>, j: Seq<char>) -> Option<u16> {
    match (spec_dest_code(d), spec_comp_code(c), spec_jump_code(j)) {
        (Some(dd), Some(cc), Some(jj)) => Some(0b1110000000000000u16 | dd | cc | jj),
        _ => None,
    }
}

/// Which field a failed encoding blames: the destination first, then the
/// computation, then the jump.
pub open spec fn spec_encode_err(d: Seq<char>, c: Seq<char>, j: Seq<char>) -> ErrView {
    if spec_dest_code(d) is None {
        ErrView::UnknownDest(d)
    } else if spec_comp_code(c) is None {
        ErrView::UnknownComp(c)
    } else {
        ErrView::UnknownJump(j)
    }
}

/// Destination bits of the mnemonic `s`.
fn dest_code(s: &str) -> (r: Option<u16>)
    ensures
        r == spec_dest_code(s@),
{
    let n = s.unicode_len();
    if n == 0 {
        Some(0b000000u16)
    } else if n == 1 {
        let c0 = s.get_char(0);
        if c0 == 'M' {
            Some(0b001000u16)
        } else if c0 == 'D' {
            Some(0b010000u16)
        } else if c0 == 'A' {
            Some(0b100000u16)
        } else {
            None
        }
    } else if n == 2 {
        let c0 = s.get_char(0);
        let c1 = s.get_char(1);
        if c0 == 'M' && c1 == 'D' {
            Some(0b011000u16)
        } else if c0 == 'A' && c1 == 'M' {
            Some(0b101000u16)
        } else if c0 == 'A' && c1 == 'D' {
            Some(0b110000u16)
        } else {
            None
        }
    } else if n == 3 {
        let c0 = s.get_char(0);
        let c1 = s.get_char(1);
        let c2 = s.get_char(2);
        if c0 == 'A' && (c1 == 'M' && c2 == 'D' || c1 == 'D' && c2 == 'M') {
            Some(0b111000u16)
        } else {
            None
        }
    } else {
        None
    }
}

/// Computation bits of the mnemonic `s`.
fn comp_code(s: &str) -> (r: Option<u16>)
    ensures
        r == spec_comp_code(s@),
{
    let n = s.unicode_len();
    if n == 1 {
        let c0 = s.get_char(0);
        if c0 == '0' {
            Some(0b0101010000000u16)
        } else if c0 == '1' {
            Some(0b0111111000000u16)
        } else if c0 == 'D' {
            Some(0b0001100000000u16)
        } else if c0 == 'A' {
            Some(0b0110000000000u16)
        } else if c0 == 'M' {
            Some(0b1110000000000u16)
        } else {
            None
        }
    } else if n == 2 {
        let c0 = s.get_char(0);
        let c1 = s.get_char(1);
        if c0 == '-' && c1 == '1' {
            Some(0b0111010000000u16)
        } else if c0 == '!' && c1 == 'D' {
            Some(0b0001101000000u16)
        } else if c0 == '!' && c1 == 'A' {
            Some(0b0110001000000u16)
        } else if c0 == '-' && c1 == 'D' {
            Some(0b0001111000000u16)
        } else if c0 == '-' && c1 == 'A' {
            Some(0b0110011000000u16)
        } else if c0 == '!' && c1 == 'M' {
            Some(0b1110001000000u16)
        } else if c0 == '-' && c1 == 'M' {
            Some(0b1110011000000u16)
        } else {
            None
        }
    } else if n == 3 {
        let c0 = s.get_char(0);
        let c1 = s.get_char(1);
        let c2 = s.get_char(2);
        if c0 == 'D' && c1 == '+' && c2 == '1' {
            Some(0b0011111000000u16)
        } else if c0 == 'A' && c1 == '+' && c2 == '1' {
            Some(0b0110111000000u16)
        } else if c0 == 'D' && c1 == '-' && c2 == '1' {
            Some(0b0001110000000u16)
        } else if c0 == 'A' && c1 == '-' && c2 == '1' {
            Some(0b0110010000000u16)
        } else if c0 == 'D' && c1 == '+' && c2 == 'A' {
            Some(0b0000010000000u16)
        } else if c0 == 'D' && c1 == '-' && c2 == 'A' {
            Some(0b0010011000000u16)
        } else if c0 == 'A' && c1 == '-' && c2 == 'D' {
            Some(0b0000111000000u16)
        } else if c0 == 'D' && c1 == '&' && c2 == 'A' {
            Some(0b0000000000000u16)
        } else if c0 == 'D' && c1 == '|' && c2 == 'A' {
            Some(0b0010101000000u16)
        } else if c0 == 'M' && c1 == '+' && c2 == '1' {
            Some(0b1110111000000u16)
        } else if c0 == 'M' && c1 == '-' && c2 == '1' {
            Some(0b1110010000000u16)
        } else if c0 == 'D' && c1 == '+' && c2 == 'M' {
            Some(0b1000010000000u16)
        } else if c0 == 'D' && c1 == '-' && c2 == 'M' {
            Some(0b1010011000000u16)
        } else if c0 == 'M' && c1 == '-' && c2 == 'D' {
            Some(0b1000111000000u16)
        } else if c0 == 'D' && c1 == '&' && c2 == 'M' {
            Some(0b1000000000000u16)
        } else if c0 == 'D' && c1 == '|' && c2 == 'M' {
            Some(0b1010101000000u16)
        } else {
            None
        }
    } else {
        None
    }
}

/// Jump bits of the mnemonic `s`.
fn jump_code(s: &str) -> (r: Option<u16>)
    ensures
        r == spec_jump_code(s@),
{
    let n = s.unicode_len();
    if n == 0 {
        Some(0b000u16)
    } else if n == 3 {
        let c0 = s.get_char(0);
        let c1 = s.get_char(1);
        let c2 = s.get_char(2);
        if c0 != 'J' {
            None
        } else if c1 == 'G' && c2 == 'T' {
            Some(0b001u16)
        } else if c1 == 'E' && c2 == 'Q' {
            Some(0b010u16)
        } else if c1 == 'G' && c2 == 'E' {
            Some(0b011u16)
        } else if c1 == 'L' && c2 == 'T' {
            Some(0b100u16)
        } else if c1 == 'N' && c2 == 'E' {
            Some(0b101u16)
        } else if c1 == 'L' && c2 == 'E' {
            Some(0b110u16)
        } else if c1 == 'M' && c2 == 'P' {
            Some(0b111u16)
        } else {
            None
        }
    } else {
        None
    }
}

/// Encode one compute instruction into its 16-bit word, or report the first
/// field that matches no table entry.
pub fn encode(inst: &Instruction) -> (r: Result<u16, AsmError>)
    ensures
        match r {
            Ok(w) => spec_encode(inst.dest@, inst.comp@, inst.jump@) == Some(w),
            Err(e) => spec_encode(inst.dest@, inst.comp@, inst.jump@) is None && e@
                == spec_encode_err(inst.dest@, inst.comp@, inst.jump@),
        },
{
    let dd = match dest_code(inst.dest.as_str()) {
        Some(dd) => dd,
        None => {
            return Err(AsmError::UnknownDest(inst.dest.clone()));
        },
    };
    let cc = match comp_code(inst.comp.as_str()) {
        Some(cc) => cc,
        None => {
            return Err(AsmError::UnknownComp(inst.comp.clone()));
        },
    };
    let jj = match jump_code(inst.jump.as_str()) {
        Some(jj) => jj,
        None => {
            return Err(AsmError::UnknownJump(inst.jump.clone()));
        },
    };
    Ok(0b1110000000000000u16 | dd | cc | jj)
}

/// The character for the bit `b`.
pub open spec fn bit_char(b: int) -> char {
    if b == 1 {
        '1'
    } else {
        '0'
    }
}

/// The low `n` bits of `w`, most significant first.
pub open spec fn spec_bits(w: int, n: nat) -> Seq<char>
    decreases n,
{
    if n == 0 {
        Seq::empty()
    } else {
        spec_bits(w / 2, (n - 1) as nat).push(bit_char(w % 2))
    }
}

/// The 16-character binary rendering of the word `w`.
pub open spec fn spec_binary16(w: u16) -> Seq<char> {
    spec_bits(w as int, 16)
}

/// The number that a binary string denotes, most significant bit first.
pub open spec fn spec_word_value(s: Seq<char>) -> int
    decreases s.len(),
{
    if s.len() == 0 {
        0
    } else {
        spec_word_value(s.drop_last()) * 2 + (if s.last() == '1' {
            1int
        } else {
            0int
        })
    }
}

/// A rendered bit string has one character per bit, each `0` or `1`.
pub proof fn lemma_bits_shape(w: int, n: nat)
    ensures
        spec_bits(w, n).len() == n,
        forall|i: int|
            0 <= i < n ==> spec_bits(w, n)[i] == '0' || spec_bits(w, n)[i] == '1',
    decreases n,
{
    if n > 0 {
        lemma_bits_shape(w / 2, (n - 1) as nat);
    }
}

/// Half of a number below `2 * p` is below `p`.
proof fn lemma_half_lt(w: int, p: int)
    requires
        0 <= w,
        0 < p,
        w < 2 * p,
    ensures
        0 <= w / 2 < p,
    decreases 0nat,
{
    lemma_fundamental_div_mod(w, 2);
    lemma_mod_bound(w, 2);
}

/// Rendering is faithful: the binary string of `w` denotes `w` itself.
pub proof fn lemma_bits_value(w: int, n: nat)
    requires
        0 <= w < pow2(n),
    ensures
        spec_word_value(spec_bits(w, n)) == w,
    decreases n,
{
    if n == 0 {
        assert(pow2(0) == 1) by {
            lemma2_to64();
        }
    } else {
        assert(pow2(n) == 2 * pow2((n - 1) as nat)) by {
            vstd::arithmetic::power2::lemma_pow2_unfold(n);
        }
        lemma_half_lt(w, pow2((n - 1) as nat) as int);
        lemma_bits_value(w / 2, (n - 1) as nat);
        let s = spec_bits(w, n);
        assert(s.drop_last() =~= spec_bits(w / 2, (n - 1) as nat));
        lemma_fundamental_div_mod(w, 2);
        lemma_mod_bound(w, 2);
        assert(s.last() == bit_char(w % 2));
    }
}

/// The value round trip for a full 16-bit word.
pub proof fn lemma_binary16_value(w: u16)
    ensures
        spec_word_value(spec_binary16(w)) == w,
        spec_binary16(w).len() == 16,
{
    lemma2_to64();
    lemma_bits_value(w as int, 16);
    lemma_bits_shape(w as int, 16);
}

/// A word below `2^15` renders with its most significant character `0`.
pub proof fn lemma_bits_msb_zero(w: int, n: nat)
    requires
        n >= 1,
        0 <= w < pow2((n - 1) as nat),
    ensures
        spec_bits(w, n).len() == n,
        spec_bits(w, n)[0] == '0',
    decreases n,
{
    lemma_bits_shape(w, n);
    if n == 1 {
        assert(pow2(0) == 1) by {
            lemma2_to64();
        }
        assert(w == 0);
    } else {
        assert(pow2((n - 1) as nat) == 2 * pow2((n - 2) as nat)) by {
            vstd::arithmetic::power2::lemma_pow2_unfold((n - 1) as nat);
        }
        lemma_half_lt(w, pow2((n - 2) as nat) as int);
        lemma_bits_msb_zero(w / 2, (n - 1) as nat);
        lemma_bits_shape(w / 2, (n - 1) as nat);
        assert(spec_bits(w, n)[0] == spec_bits(w / 2, (n - 1) as nat)[0]);
    }
}

/// The low `n` bits of `w`, most significant first, as a string.
fn bits_string(w: u16, n: usize) -> (r: String)
    ensures
        r@ == spec_bits(w as int, n as nat),
    decreases n,
{
    if n == 0 {
        let r = String::new();
        proof {
            assert(r@ =~= spec_bits(w as int, 0));
        }
        r
    } else {
        let mut s = bits_string(w / 2, n - 1);
        let ghost pre = s@;
        if w % 2 == 1 {
            proof {
                reveal_strlit("1");
            }
            s.append("1");
            proof {
                assert(s@ =~= pre.push('1'));
            }
        } else {
            proof {
                reveal_strlit("0");
            }
            s.append("0");
            proof {
                assert(s@ =~= pre.push('0'));
            }
        }
        s
    }
}

/// Render the word `w` as its 16-character binary string.
pub fn to_binary16(w: u16) -> (r: String)
    ensures
        r@ == spec_binary16(w),
{
    bits_string(w, 16)
}

} // verus!
