//! The two passes over a classified program and the translation entry point.
//! Pass one binds every label declaration to the address of the instruction
//! that follows it; pass two encodes every instruction in order, allocating
//! addresses for variables at first use, starting at 16.

use vstd::prelude::*;
use crate::code::{
    encode, spec_binary16, spec_encode, spec_encode_err, to_binary16,
};
use crate::error::{AsmError, ErrView};
use crate::parse::{line_views, parse_program, parsed_views, spec_parse_program, LineKind, Parsed};
use crate::symbols::{predef_symbols, spec_predef, SymbolTable};
use crate::text::{parse_numeric, spec_numeric};

verus! {

/// The most source lines one run accepts.  Instruction and variable
/// addresses are 16-bit; with at most `65535 - 16` lines every address that
/// the two passes can allocate fits.
pub const MAX_LINES: usize = 65519;

/// Whether a classified line occupies an instruction address.
pub open spec fn spec_is_instr(k: LineKind) -> bool {
    k is Addr || k is Compute
}

/// How many lines of `p` are real instructions.
pub open spec fn spec_instr_count(p: Seq<LineKind>) -> int
    decreases p.len(),
{
    if p.len() == 0 {
        0
    } else {
        (if spec_is_instr(p[0]) {
            1int
        } else {
            0int
        }) + spec_instr_count(p.skip(1))
    }
}

/// The label-resolution pass: bind each label declaration to the current
/// instruction counter; fail on a name that is already bound.
pub open spec fn spec_pass1(
    p: Seq<LineKind>,
    table: Map<Seq<char>, u16>,
    counter: int,
) -> Result<Map<Seq<char>, u16>, ErrView>
    decreases p.len(),
{
    if p.len() == 0 {
        Ok(table)
    } else {
        match p[0] {
            LineKind::Blank => spec_pass1(p.skip(1), table, counter),
            LineKind::Label(nm) => if table.contains_key(nm) {
                Err(ErrView::DuplicateLabel(nm))
            } else {
                spec_pass1(p.skip(1), table.insert(nm, counter as u16), counter)
            },
            _ => spec_pass1(p.skip(1), table, counter + 1),
        }
    }
}

/// How one address instruction resolves: a numeric token is its own value; a
/// bound symbol is its address; an unbound symbol is a new variable bound to
/// the variable counter, which then advances.  The emitted word always has
/// its most significant bit fixed to 0.
pub open spec fn spec_addr_step(
    tok: Seq<char>,
    table: Map<Seq<char>, u16>,
    var: int,
) -> (u16, Map<Seq<char>, u16>, int) {
    match spec_numeric(tok) {
        Some(n) => (n & 0x7fff, table, var),
        None => if table.contains_key(tok) {
            (table[tok] & 0x7fff, table, var)
        } else {
            ((var as u16) & 0x7fff, table.insert(tok, var as u16), var + 1)
        },
    }
}

/// The encoding pass: one 16-bit word per real instruction, in program
/// order, threading the symbol table and the variable counter.
pub open spec fn spec_pass2(
    p: Seq<LineKind>,
    table: Map<Seq<char>, u16>,
    var: int,
) -> Result<(Seq<u16>, Map<Seq<char>, u16>, int), ErrView>
    decreases p.len(),
{
    if p.len() == 0 {
        Ok((Seq::empty(), table, var))
    } else {
        match p[0] {
            LineKind::Blank => spec_pass2(p.skip(1), table, var),
            LineKind::Label(_) => spec_pass2(p.skip(1), table, var),
            LineKind::Addr(tok) => {
                let st = spec_addr_step(tok, table, var);
                match spec_pass2(p.skip(1), st.1, st.2) {
                    Err(e) => Err(e),
                    Ok(t3) => Ok((seq![st.0] + t3.0, t3.1, t3.2)),
                }
            },
            LineKind::Compute(d, c, j) => match spec_encode(d, c, j) {
                Some(w) => match spec_pass2(p.skip(1), table, var) {
                    Err(e) => Err(e),
                    Ok(t3) => Ok((seq![w] + t3.0, t3.1, t3.2)),
                },
                None => Err(spec_encode_err(d, c, j)),
            },
        }
    }
}

/// What the whole translation denotes: classify every line, resolve the
/// labels over the predefined table, then encode, with variables allocated
/// from address 16.
pub open spec fn spec_translate(lines: Seq<Seq<char>>) -> Result<Seq<u16>, ErrView> {
    match spec_parse_program(lines) {
        Err(e) => Err(e),
        Ok(p) => match spec_pass1(p, spec_predef(), 0) {
            Err(e) => Err(e),
            Ok(t) => match spec_pass2(p, t, 16) {
                Err(e) => Err(e),
                Ok(t3) => Ok(t3.0),
            },
        },
    }
}

/// First pass: bind every label declaration in `parsed` to the address of
/// the instruction that follows it, or fail on a duplicate name.
pub fn resolve_labels(parsed: &Vec<Parsed>, table: &mut SymbolTable) -> (r: Result<(), AsmError>)
    requires
        parsed@.len() <= 65535,
    ensures
        match r {
            Ok(_) => spec_pass1(parsed_views(parsed@), old(table)@, 0) == Ok::<
                Map<Seq<char>, u16>,
                ErrView,
            >(final(table)@),
            Err(e) => spec_pass1(parsed_views(parsed@), old(table)@, 0) == Err::<
                Map<Seq<char>, u16>,
                ErrView,
            >(e@),
        },
{
    let ghost p = parsed_views(parsed@);
    let mut i: usize = 0;
    let mut counter: u16 = 0;
    proof {
        assert(p.skip(0) =~= p);
    }
    while i < parsed.len()
        invariant
            0 <= i <= parsed@.len(),
            parsed@.len() <= 65535,
            p == parsed_views(parsed@),
            counter as int <= i,
            spec_pass1(p, old(table)@, 0) == spec_pass1(
                p.skip(i as int),
                table@,
                counter as int,
            ),
        decreases parsed@.len() - i,
    {
        proof {
            assert(p.skip(i as int)[0] == p[i as int]);
            assert(p.skip(i as int).skip(1) =~= p.skip(i as int + 1));
        }
        match &parsed[i] {
            Parsed::Blank => {},
            Parsed::Label(nm) => {
                if table.contains(nm.as_str()) {
                    return Err(AsmError::DuplicateLabel(nm.clone()));
                }
                table.add_entry(nm.clone(), counter);
            },
            Parsed::Addr(_) => {
                counter = counter + 1;
            },
            Parsed::Compute(_) => {
                counter = counter + 1;
            },
        }
        i = i + 1;
    }
    proof {
        assert(p.skip(i as int).len() == 0);
    }
    Ok(())
}

/// Second pass: encode every instruction of `parsed` in order, resolving
/// address tokens against `table` and allocating addresses for new variables
/// from 16 upward.
pub fn encode_program(parsed: &Vec<Parsed>, table: &mut SymbolTable) -> (r: Result<
    Vec<u16>,
    AsmError,
>)
    requires
        parsed@.len() <= MAX_LINES as nat,
    ensures
        match r {
            Ok(words) => spec_pass2(parsed_views(parsed@), old(table)@, 16) matches Ok(t3)
                && t3.0 == words@ && t3.1 == final(table)@,
            Err(e) => spec_pass2(parsed_views(parsed@), old(table)@, 16) == Err::<
                (Seq<u16>, Map<Seq<char>, u16>, int),
                ErrView,
            >(e@),
        },
{
    let ghost p = parsed_views(parsed@);
    let mut out: Vec<u16> = Vec::new();
    let mut i: usize = 0;
    let mut var: u32 = 16;
    proof {
        assert(p.skip(0) =~= p);
    }
    while i < parsed.len()
        invariant
            0 <= i <= parsed@.len(),
            parsed@.len() <= MAX_LINES as nat,
            p == parsed_views(parsed@),
            16 <= var as int <= 16 + i,
            spec_pass2(p, old(table)@, 16) == match spec_pass2(
                p.skip(i as int),
                table@,
                var as int,
            ) {
                Ok(t3) => Ok::<(Seq<u16>, Map<Seq<char>, u16>, int), ErrView>(
                    (out@ + t3.0, t3.1, t3.2),
                ),
                Err(e) => Err::<(Seq<u16>, Map<Seq<char>, u16>, int), ErrView>(e),
            },
        decreases parsed@.len() - i,
    {
        proof {
            assert(p.skip(i as int)[0] == p[i as int]);
            assert(p.skip(i as int).skip(1) =~= p.skip(i as int + 1));
        }
        let ghost pre = out@;
        match &parsed[i] {
            Parsed::Blank => {},
            Parsed::Label(_) => {},
            Parsed::Addr(tok) => {
                let w: u16;
                match parse_numeric(tok.as_str()) {
                    Some(n) => {
                        w = n & 0x7fff;
                    },
                    None => {
                        if table.contains(tok.as_str()) {
                            w = table.get_address(tok.as_str()) & 0x7fff;
                        } else {
                            table.add_entry(tok.clone(), var as u16);
                            w = (var as u16) & 0x7fff;
                            var = var + 1;
                        }
                    },
                }
                out.push(w);
                proof {
                    if spec_pass2(p.skip(i as int + 1), table@, var as int) is Ok {
                        let t3 = spec_pass2(p.skip(i as int + 1), table@, var as int) ->Ok_0;
                        assert(pre + (seq![w] + t3.0) =~= out@ + t3.0);
                    }
                }
            },
            Parsed::Compute(inst) => {
                match encode(inst) {
                    Ok(w) => {
                        out.push(w);
                        proof {
                            if spec_pass2(p.skip(i as int + 1), table@, var as int) is Ok {
                                let t3 = spec_pass2(
                                    p.skip(i as int + 1),
                                    table@,
                                    var as int,
                                ) ->Ok_0;
                                assert(pre + (seq![w] + t3.0) =~= out@ + t3.0);
                            }
                        }
                    },
                    Err(e) => {
                        return Err(e);
                    },
                }
            },
        }
        i = i + 1;
    }
    proof {
        assert(p.skip(i as int).len() == 0);
        assert(out@ + Seq::<u16>::empty() =~= out@);
    }
    Ok(out)
}

/// Translate a whole source program into its binary lines: one 16-character
/// string of `0`/`1` per real instruction, in program order.  The result is
/// a function of the source text alone, so re-running the translation on
/// identical input yields identical output.
pub fn translate(lines: &Vec<String>) -> (r: Result<Vec<String>, AsmError>)
    requires
        lines@.len() <= MAX_LINES as nat,
    ensures
        match r {
            Ok(out) => spec_translate(line_views(lines@)) matches Ok(ws) && out@.len() == ws.len()
                && (forall|i: int|
                0 <= i < ws.len() ==> out@[i]@ == spec_binary16(#[trigger] ws[i]))
                && out@.len() == spec_instr_count(
                spec_parse_program(line_views(lines@))->Ok_0,
            ) && (forall|i: int|
                0 <= i < out@.len() ==> (#[trigger] out@[i])@.len() == 16 && (forall|k: int|
                    0 <= k < 16 ==> out@[i]@[k] == '0' || out@[i]@[k] == '1')),
            Err(e) => spec_translate(line_views(lines@)) == Err::<Seq<u16>, ErrView>(e@),
        },
{
    let parsed = match parse_program(lines) {
        Ok(p) => p,
        Err(e) => {
            return Err(e);
        },
    };
    let mut table = predef_symbols();
    match resolve_labels(&parsed, &mut table) {
        Ok(_) => {},
        Err(e) => {
            return Err(e);
        },
    }
    let words = match encode_program(&parsed, &mut table) {
        Ok(w) => w,
        Err(e) => {
            return Err(e);
        },
    };
    let mut out: Vec<String> = Vec::new();
    let mut i: usize = 0;
    while i < words.len()
        invariant
            0 <= i <= words@.len(),
            out@.len() == i,
            forall|k: int| 0 <= k < i ==> out@[k]@ == spec_binary16(#[trigger] words@[k]),
        decreases words@.len() - i,
    {
        out.push(to_binary16(words[i]));
        i = i + 1;
    }
    proof {
        let lv = line_views(lines@);
        let p = parsed_views(parsed@);
        crate::laws::lemma_output_count(lv, p, words@);
        assert forall|q: int| 0 <= q < out@.len() implies (#[trigger] out@[q])@.len() == 16 && (
        forall|k: int| 0 <= k < 16 ==> out@[q]@[k] == '0' || out@[q]@[k] == '1') by {
            crate::code::lemma_bits_shape(words@[q] as int, 16);
        }
    }
    Ok(out)
}

} // verus!
