//! General properties of the translation, proved once and for all inputs:
//! the output has one word per real instruction; a label resolves to the
//! index of the instruction that follows its declaration, wherever it is
//! referenced; variables are allocated consecutive addresses in first-use
//! order and keep them; and a re-declared label is rejected.

use vstd::prelude::*;
use vstd::arithmetic::power2::lemma2_to64;
use crate::code::{
    lemma_binary16_value, lemma_bits_msb_zero, spec_binary16, spec_word_value,
};
use crate::error::ErrView;
use crate::parse::{spec_parse_program, LineKind};
use crate::symbols::spec_predef;
use crate::text::spec_numeric;
use crate::translate::{
    spec_addr_step, spec_instr_count, spec_is_instr, spec_pass1, spec_pass2, spec_translate,
};

verus! {

/// A program has between zero and one instruction per line.
pub proof fn lemma_icount_bounds(p: Seq<LineKind>)
    ensures
        0 <= spec_instr_count(p) <= p.len(),
    decreases p.len(),
{
    if p.len() > 0 {
        lemma_icount_bounds(p.skip(1));
    }
}

/// Dropping the first line shifts an instruction-count prefix by the first
/// line's own contribution.
proof fn lemma_icount_take_shift(p: Seq<LineKind>, i: int)
    requires
        1 <= i <= p.len(),
    ensures
        spec_instr_count(p.take(i)) == (if spec_is_instr(p[0]) {
            1int
        } else {
            0int
        }) + spec_instr_count(p.skip(1).take(i - 1)),
{
    assert(p.take(i)[0] == p[0]);
    assert(p.take(i).skip(1) =~= p.skip(1).take(i - 1));
}

/// The encoding pass emits exactly one word per real instruction.
pub proof fn lemma_pass2_len(p: Seq<LineKind>, m: Map<Seq<char>, u16>, v: int)
    requires
        spec_pass2(p, m, v) is Ok,
    ensures
        spec_pass2(p, m, v)->Ok_0.0.len() == spec_instr_count(p),
    decreases p.len(),
{
    if p.len() > 0 {
        match p[0] {
            LineKind::Blank => lemma_pass2_len(p.skip(1), m, v),
            LineKind::Label(_) => lemma_pass2_len(p.skip(1), m, v),
            LineKind::Addr(tok) => {
                let st = spec_addr_step(tok, m, v);
                lemma_pass2_len(p.skip(1), st.1, st.2);
            },
            LineKind::Compute(_, _, _) => lemma_pass2_len(p.skip(1), m, v),
        }
    }
}

/// The encoding pass never rebinds a name: every binding present when it
/// starts is present, unchanged, when it ends.
pub proof fn lemma_pass2_preserves(
    p: Seq<LineKind>,
    m: Map<Seq<char>, u16>,
    v: int,
    x: Seq<char>,
)
    requires
        spec_pass2(p, m, v) is Ok,
        m.contains_key(x),
    ensures
        spec_pass2(p, m, v)->Ok_0.1.contains_key(x),
        spec_pass2(p, m, v)->Ok_0.1[x] == m[x],
    decreases p.len(),
{
    if p.len() > 0 {
        match p[0] {
            LineKind::Blank => lemma_pass2_preserves(p.skip(1), m, v, x),
            LineKind::Label(_) => lemma_pass2_preserves(p.skip(1), m, v, x),
            LineKind::Addr(tok) => {
                let st = spec_addr_step(tok, m, v);
                lemma_pass2_preserves(p.skip(1), st.1, st.2, x);
            },
            LineKind::Compute(_, _, _) => lemma_pass2_preserves(p.skip(1), m, v, x),
        }
    }
}

/// The word emitted for an address instruction with a numeric token is the
/// token's value, its most significant bit forced to 0, whatever the symbol
/// table holds.
pub proof fn lemma_pass2_literal_word(
    p: Seq<LineKind>,
    m: Map<Seq<char>, u16>,
    v: int,
    i: int,
    tok: Seq<char>,
    n: u16,
)
    requires
        spec_pass2(p, m, v) is Ok,
        0 <= i < p.len(),
        p[i] == LineKind::Addr(tok),
        spec_numeric(tok) == Some(n),
    ensures
        0 <= spec_instr_count(p.take(i)) < spec_pass2(p, m, v)->Ok_0.0.len(),
        spec_pass2(p, m, v)->Ok_0.0[spec_instr_count(p.take(i))] == n & 0x7fff,
    decreases p.len(),
{
    lemma_icount_bounds(p.take(i));
    if i == 0 {
        assert(p.take(0) =~= Seq::<LineKind>::empty());
    } else {
        lemma_icount_take_shift(p, i);
        assert(p.skip(1)[i - 1] == p[i]);
        match p[0] {
            LineKind::Blank => lemma_pass2_literal_word(p.skip(1), m, v, i - 1, tok, n),
            LineKind::Label(_) => lemma_pass2_literal_word(p.skip(1), m, v, i - 1, tok, n),
            LineKind::Addr(t0) => {
                let st = spec_addr_step(t0, m, v);
                lemma_pass2_literal_word(p.skip(1), st.1, st.2, i - 1, tok, n);
            },
            LineKind::Compute(_, _, _) => lemma_pass2_literal_word(p.skip(1), m, v, i - 1, tok, n),
        }
    }
}

/// The word emitted for an address instruction with a symbolic token is the
/// address that the final symbol table binds the token to, its most
/// significant bit forced to 0; and the token is bound in that table.
pub proof fn lemma_pass2_symbol_word(
    p: Seq<LineKind>,
    m: Map<Seq<char>, u16>,
    v: int,
    i: int,
    tok: Seq<char>,
)
    requires
        spec_pass2(p, m, v) is Ok,
        0 <= i < p.len(),
        p[i] == LineKind::Addr(tok),
        spec_numeric(tok) is None,
    ensures
        spec_pass2(p, m, v)->Ok_0.1.contains_key(tok),
        0 <= spec_instr_count(p.take(i)) < spec_pass2(p, m, v)->Ok_0.0.len(),
        spec_pass2(p, m, v)->Ok_0.0[spec_instr_count(p.take(i))] == spec_pass2(
            p,
            m,
            v,
        )->Ok_0.1[tok] & 0x7fff,
    decreases p.len(),
{
    lemma_icount_bounds(p.take(i));
    if i == 0 {
        assert(p.take(0) =~= Seq::<LineKind>::empty());
        let st = spec_addr_step(tok, m, v);
        if m.contains_key(tok) {
            lemma_pass2_preserves(p.skip(1), m, v, tok);
        } else {
            lemma_pass2_preserves(p.skip(1), st.1, st.2, tok);
        }
    } else {
        lemma_icount_take_shift(p, i);
        assert(p.skip(1)[i - 1] == p[i]);
        match p[0] {
            LineKind::Blank => lemma_pass2_symbol_word(p.skip(1), m, v, i - 1, tok),
            LineKind::Label(_) => lemma_pass2_symbol_word(p.skip(1), m, v, i - 1, tok),
            LineKind::Addr(t0) => {
                let st = spec_addr_step(t0, m, v);
                lemma_pass2_symbol_word(p.skip(1), st.1, st.2, i - 1, tok);
            },
            LineKind::Compute(_, _, _) => lemma_pass2_symbol_word(p.skip(1), m, v, i - 1, tok),
        }
    }
}

/// Two address instructions with the same symbolic token emit the same word:
/// re-referencing a variable or label returns its assigned address unchanged.
pub proof fn lemma_repeated_symbol_stable(
    p: Seq<LineKind>,
    m: Map<Seq<char>, u16>,
    v: int,
    i: int,
    j: int,
    tok: Seq<char>,
)
    requires
        spec_pass2(p, m, v) is Ok,
        0 <= i < p.len(),
        0 <= j < p.len(),
        p[i] == LineKind::Addr(tok),
        p[j] == LineKind::Addr(tok),
        spec_numeric(tok) is None,
    ensures
        spec_pass2(p, m, v)->Ok_0.0[spec_instr_count(p.take(i))] == spec_pass2(
            p,
            m,
            v,
        )->Ok_0.0[spec_instr_count(p.take(j))],
{
    lemma_pass2_symbol_word(p, m, v, i, tok);
    lemma_pass2_symbol_word(p, m, v, j, tok);
}

/// Label resolution never rebinds a name either.
pub proof fn lemma_pass1_preserves(
    p: Seq<LineKind>,
    m: Map<Seq<char>, u16>,
    c: int,
    x: Seq<char>,
)
    requires
        spec_pass1(p, m, c) is Ok,
        m.contains_key(x),
    ensures
        spec_pass1(p, m, c)->Ok_0.contains_key(x),
        spec_pass1(p, m, c)->Ok_0[x] == m[x],
    decreases p.len(),
{
    if p.len() > 0 {
        match p[0] {
            LineKind::Blank => lemma_pass1_preserves(p.skip(1), m, c, x),
            LineKind::Label(nm) => {
                lemma_pass1_preserves(p.skip(1), m.insert(nm, c as u16), c, x);
            },
            LineKind::Addr(_) => lemma_pass1_preserves(p.skip(1), m, c + 1, x),
            LineKind::Compute(_, _, _) => lemma_pass1_preserves(p.skip(1), m, c + 1, x),
        }
    }
}

/// A label whose name is already bound makes label resolution fail.
pub proof fn lemma_pass1_rejects_bound(
    p: Seq<LineKind>,
    m: Map<Seq<char>, u16>,
    c: int,
    j: int,
    nm: Seq<char>,
)
    requires
        0 <= j < p.len(),
        p[j] == LineKind::Label(nm),
        m.contains_key(nm),
    ensures
        spec_pass1(p, m, c) is Err,
    decreases p.len(),
{
    if j > 0 {
        assert(p.skip(1)[j - 1] == p[j]);
        match p[0] {
            LineKind::Blank => lemma_pass1_rejects_bound(p.skip(1), m, c, j - 1, nm),
            LineKind::Label(o) => {
                if !m.contains_key(o) {
                    lemma_pass1_rejects_bound(p.skip(1), m.insert(o, c as u16), c, j - 1, nm);
                }
            },
            LineKind::Addr(_) => lemma_pass1_rejects_bound(p.skip(1), m, c + 1, j - 1, nm),
            LineKind::Compute(_, _, _) => lemma_pass1_rejects_bound(
                p.skip(1),
                m,
                c + 1,
                j - 1,
                nm,
            ),
        }
    }
}

/// Declaring the same label name twice makes label resolution fail, whatever
/// the table held beforehand.
pub proof fn lemma_duplicate_label_rejected(
    p: Seq<LineKind>,
    m: Map<Seq<char>, u16>,
    c: int,
    i: int,
    j: int,
    nm: Seq<char>,
)
    requires
        0 <= i < j < p.len(),
        p[i] == LineKind::Label(nm),
        p[j] == LineKind::Label(nm),
    ensures
        spec_pass1(p, m, c) is Err,
    decreases p.len(),
{
    assert(p.skip(1)[j - 1] == p[j]);
    if i == 0 {
        if !m.contains_key(nm) {
            lemma_pass1_rejects_bound(p.skip(1), m.insert(nm, c as u16), c, j - 1, nm);
        }
    } else {
        assert(p.skip(1)[i - 1] == p[i]);
        match p[0] {
            LineKind::Blank => lemma_duplicate_label_rejected(p.skip(1), m, c, i - 1, j - 1, nm),
            LineKind::Label(o) => {
                if !m.contains_key(o) {
                    lemma_duplicate_label_rejected(
                        p.skip(1),
                        m.insert(o, c as u16),
                        c,
                        i - 1,
                        j - 1,
                        nm,
                    );
                }
            },
            LineKind::Addr(_) => lemma_duplicate_label_rejected(
                p.skip(1),
                m,
                c + 1,
                i - 1,
                j - 1,
                nm,
            ),
            LineKind::Compute(_, _, _) => lemma_duplicate_label_rejected(
                p.skip(1),
                m,
                c + 1,
                i - 1,
                j - 1,
                nm,
            ),
        }
    }
}

/// A program that declares the same label name twice does not translate.
pub proof fn lemma_duplicate_label_fails_translation(
    lines: Seq<Seq<char>>,
    p: Seq<LineKind>,
    i: int,
    j: int,
    nm: Seq<char>,
)
    requires
        spec_parse_program(lines) == Ok::<Seq<LineKind>, ErrView>(p),
        0 <= i < j < p.len(),
        p[i] == LineKind::Label(nm),
        p[j] == LineKind::Label(nm),
    ensures
        spec_translate(lines) is Err,
{
    lemma_duplicate_label_rejected(p, spec_predef(), 0, i, j, nm);
}

/// A label declared before the k-th real instruction resolves to address
/// `c + k`, where `c` is the counter label resolution started from.
pub proof fn lemma_pass1_label(
    p: Seq<LineKind>,
    m: Map<Seq<char>, u16>,
    c: int,
    j: int,
    nm: Seq<char>,
)
    requires
        spec_pass1(p, m, c) is Ok,
        0 <= j < p.len(),
        p[j] == LineKind::Label(nm),
    ensures
        spec_pass1(p, m, c)->Ok_0.contains_key(nm),
        spec_pass1(p, m, c)->Ok_0[nm] == ((c + spec_instr_count(p.take(j))) as u16),
    decreases p.len(),
{
    if j == 0 {
        assert(p.take(0) =~= Seq::<LineKind>::empty());
        lemma_pass1_preserves(p.skip(1), m.insert(nm, c as u16), c, nm);
    } else {
        lemma_icount_take_shift(p, j);
        assert(p.skip(1)[j - 1] == p[j]);
        match p[0] {
            LineKind::Blank => lemma_pass1_label(p.skip(1), m, c, j - 1, nm),
            LineKind::Label(o) => {
                if o == nm {
                    lemma_pass1_rejects_bound(p.skip(1), m.insert(nm, c as u16), c, j - 1, nm);
                    assert(false);
                } else {
                    lemma_pass1_label(p.skip(1), m.insert(o, c as u16), c, j - 1, nm);
                }
            },
            LineKind::Addr(_) => lemma_pass1_label(p.skip(1), m, c + 1, j - 1, nm),
            LineKind::Compute(_, _, _) => lemma_pass1_label(p.skip(1), m, c + 1, j - 1, nm),
        }
    }
}

/// The variable names that the encoding pass sees for the first time, in
/// order of first use, given the names already bound.
pub open spec fn spec_new_vars(p: Seq<LineKind>, seen: Set<Seq<char>>) -> Seq<Seq<char>>
    decreases p.len(),
{
    if p.len() == 0 {
        Seq::empty()
    } else {
        match p[0] {
            LineKind::Addr(tok) => if spec_numeric(tok) is None && !seen.contains(tok) {
                seq![tok] + spec_new_vars(p.skip(1), seen.insert(tok))
            } else {
                spec_new_vars(p.skip(1), seen)
            },
            _ => spec_new_vars(p.skip(1), seen),
        }
    }
}

/// Variables are allocated consecutive addresses in first-use order: with
/// the counter starting at `v`, the q-th previously unseen variable symbol
/// is bound to address `v + q`, and the counter ends past the last one.
pub proof fn lemma_variable_allocation(p: Seq<LineKind>, m: Map<Seq<char>, u16>, v: int)
    requires
        spec_pass2(p, m, v) is Ok,
    ensures
        ({
            let t3 = spec_pass2(p, m, v)->Ok_0;
            let nv = spec_new_vars(p, m.dom());
            &&& t3.2 == v + nv.len()
            &&& forall|q: int|
                0 <= q < nv.len() ==> t3.1.contains_key(#[trigger] nv[q]) && t3.1[nv[q]] == ((v
                    + q) as u16)
        }),
    decreases p.len(),
{
    if p.len() > 0 {
        match p[0] {
            LineKind::Blank => lemma_variable_allocation(p.skip(1), m, v),
            LineKind::Label(_) => lemma_variable_allocation(p.skip(1), m, v),
            LineKind::Addr(tok) => {
                if spec_numeric(tok) is None && !m.contains_key(tok) {
                    let m2 = m.insert(tok, v as u16);
                    assert(m2.dom() =~= m.dom().insert(tok));
                    lemma_variable_allocation(p.skip(1), m2, v + 1);
                    lemma_pass2_preserves(p.skip(1), m2, v + 1, tok);
                    let t3 = spec_pass2(p, m, v)->Ok_0;
                    let nv = spec_new_vars(p, m.dom());
                    let nv2 = spec_new_vars(p.skip(1), m2.dom());
                    assert(nv == seq![tok] + nv2);
                    assert forall|q: int|
                        0 <= q < nv.len() implies t3.1.contains_key(#[trigger] nv[q])
                        && t3.1[nv[q]] == ((v + q) as u16) by {
                        if q > 0 {
                            assert(nv[q] == nv2[q - 1]);
                        }
                    }
                } else {
                    lemma_variable_allocation(p.skip(1), m, v);
                }
            },
            LineKind::Compute(_, _, _) => lemma_variable_allocation(p.skip(1), m, v),
        }
    }
}

/// A successful translation emits exactly one binary line per real
/// instruction: label declarations, blank lines and comments emit nothing.
pub proof fn lemma_output_count(lines: Seq<Seq<char>>, p: Seq<LineKind>, ws: Seq<u16>)
    requires
        spec_parse_program(lines) == Ok::<Seq<LineKind>, ErrView>(p),
        spec_translate(lines) == Ok::<Seq<u16>, ErrView>(ws),
    ensures
        ws.len() == spec_instr_count(p),
        p.len() == lines.len(),
{
    let m = spec_pass1(p, spec_predef(), 0)->Ok_0;
    lemma_pass2_len(p, m, 16);
    crate::parse::lemma_parse_program_pointwise(lines, p);
}

/// An address instruction with a literal numeric value `n` below `2^15`
/// emits the 16-bit binary rendering of `n`: a string that denotes `n`
/// itself and whose leading (most significant) character is `0`.
pub proof fn lemma_literal_value_faithful(n: u16)
    requires
        n <= 32767,
    ensures
        spec_binary16(n).len() == 16,
        spec_binary16(n)[0] == '0',
        spec_word_value(spec_binary16(n)) == n,
{
    lemma2_to64();
    lemma_bits_msb_zero(n as int, 16);
    lemma_binary16_value(n);
}

/// In a successful translation, an address instruction whose token is the
/// literal `n` yields, at its instruction position, exactly the word `n`
/// with the most significant bit forced to 0.
pub proof fn lemma_literal_address(
    lines: Seq<Seq<char>>,
    p: Seq<LineKind>,
    ws: Seq<u16>,
    i: int,
    tok: Seq<char>,
    n: u16,
)
    requires
        spec_parse_program(lines) == Ok::<Seq<LineKind>, ErrView>(p),
        spec_translate(lines) == Ok::<Seq<u16>, ErrView>(ws),
        0 <= i < p.len(),
        p[i] == LineKind::Addr(tok),
        spec_numeric(tok) == Some(n),
    ensures
        0 <= spec_instr_count(p.take(i)) < ws.len(),
        ws[spec_instr_count(p.take(i))] == n & 0x7fff,
        n <= 32767 ==> ws[spec_instr_count(p.take(i))] == n,
{
    let m = spec_pass1(p, spec_predef(), 0)->Ok_0;
    lemma_pass2_literal_word(p, m, 16, i, tok, n);
    assert(n <= 32767 ==> n & 0x7fff == n) by (bit_vector);
}

/// In a successful translation, a label declared just before the k-th real
/// instruction resolves, wherever it is referenced — before or after the
/// declaration — to the word `k` (for k below `2^15`, where no masking can
/// interfere).
pub proof fn lemma_label_resolution(
    lines: Seq<Seq<char>>,
    p: Seq<LineKind>,
    ws: Seq<u16>,
    j: int,
    i: int,
    nm: Seq<char>,
)
    requires
        spec_parse_program(lines) == Ok::<Seq<LineKind>, ErrView>(p),
        spec_translate(lines) == Ok::<Seq<u16>, ErrView>(ws),
        0 <= j < p.len(),
        p[j] == LineKind::Label(nm),
        0 <= i < p.len(),
        p[i] == LineKind::Addr(nm),
        spec_numeric(nm) is None,
        spec_instr_count(p.take(j)) <= 32767,
    ensures
        0 <= spec_instr_count(p.take(i)) < ws.len(),
        ws[spec_instr_count(p.take(i))] as int == spec_instr_count(p.take(j)),
{
    let m = spec_pass1(p, spec_predef(), 0)->Ok_0;
    let k = spec_instr_count(p.take(j));
    lemma_icount_bounds(p.take(j));
    lemma_pass1_label(p, spec_predef(), 0, j, nm);
    assert(m[nm] == k as u16);
    lemma_pass2_preserves(p, m, 16, nm);
    lemma_pass2_symbol_word(p, m, 16, i, nm);
    let w = m[nm];
    assert(w <= 32767 ==> w & 0x7fff == w) by (bit_vector);
}

} // verus!
