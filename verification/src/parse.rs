//! The line classifier and field splitter: one physical source line becomes
//! either nothing (blank or comment), a label declaration, an address
//! instruction, or a compute instruction split into its three fields.  The
//! split is purely lexical; whether a field is a legal mnemonic is decided
//! later by the encoder.

use vstd::prelude::*;
use vstd::string::StringExecFns;
use crate::code::Instruction;
use crate::error::{AsmError, ErrView};
use crate::text::{find_char, spec_find, spec_trim, trim};

verus! {

/// One classified source line.
pub enum Parsed {
    /// A blank line or a whole-line comment: ignored.
    Blank,
    /// A label declaration `(name)`, carrying the name.
    Label(String),
    /// An address instruction `@token`, carrying the address token.
    Addr(String),
    /// A compute instruction, carrying its three fields.
    Compute(Instruction),
}

/// The mathematical image of a classified line.
pub enum LineKind {
    Blank,
    Label(Seq<char>),
    Addr(Seq<char>),
    Compute(Seq<char>, Seq<char>, Seq<char>),
}

impl View for Parsed {
    type V = LineKind;

    open spec fn view(&self) -> LineKind {
        match self {
            Parsed::Blank => LineKind::Blank,
            Parsed::Label(s) => LineKind::Label(s@),
            Parsed::Addr(s) => LineKind::Addr(s@),
            Parsed::Compute(i) => LineKind::Compute(i.dest@, i.comp@, i.jump@),
        }
    }
}

/// How one raw source line classifies.  In order: a line that trims to
/// nothing or opens with `//` is ignored; a line opening with `(` is a label
/// declaration and must close with `)`; a line opening with `@` is an
/// address instruction and must carry a token; anything else is a compute
/// instruction, split once on `=` (optional destination) and once on `;`
/// (optional jump).
pub open spec fn spec_parse_line(raw: Seq<char>) -> Result<LineKind, ErrView> {
    let t = spec_trim(raw);
    if t.len() == 0 {
        Ok(LineKind::Blank)
    } else if t.len() >= 2 && t[0] == '/' && t[1] == '/' {
        Ok(LineKind::Blank)
    } else if t[0] == '(' {
        if t.len() >= 2 && t.last() == ')' {
            Ok(LineKind::Label(t.subrange(1, t.len() - 1)))
        } else {
            Err(ErrView::MalformedLabel(t))
        }
    } else if t[0] == '@' {
        if t.len() >= 2 {
            Ok(LineKind::Addr(t.skip(1)))
        } else {
            Err(ErrView::MalformedAddress(t))
        }
    } else {
        let e = spec_find(t, '=');
        let d = if e < t.len() {
            t.take(e)
        } else {
            Seq::<char>::empty()
        };
        let rest = if e < t.len() {
            t.skip(e + 1)
        } else {
            t
        };
        let s = spec_find(rest, ';');
        let c = if s < rest.len() {
            rest.take(s)
        } else {
            rest
        };
        let j = if s < rest.len() {
            rest.skip(s + 1)
        } else {
            Seq::<char>::empty()
        };
        Ok(LineKind::Compute(d, c, j))
    }
}

/// Classify one raw source line.
pub fn parse_line(line: &str) -> (r: Result<Parsed, AsmError>)
    ensures
        match r {
            Ok(p) => spec_parse_line(line@) == Ok::<LineKind, ErrView>(p@),
            Err(e) => spec_parse_line(line@) == Err::<LineKind, ErrView>(e@),
        },
{
    let t = trim(line);
    let n = t.as_str().unicode_len();
    if n == 0 {
        return Ok(Parsed::Blank);
    }
    let c0 = t.as_str().get_char(0);
    if n >= 2 && c0 == '/' && t.as_str().get_char(1) == '/' {
        return Ok(Parsed::Blank);
    }
    if c0 == '(' {
        if n >= 2 && t.as_str().get_char(n - 1) == ')' {
            let name = t.as_str().substring_char(1, n - 1).to_owned();
            return Ok(Parsed::Label(name));
        } else {
            return Err(AsmError::MalformedLabel(t));
        }
    }
    if c0 == '@' {
        if n >= 2 {
            let tok = t.as_str().substring_char(1, n).to_owned();
            proof {
                assert(t@.subrange(1, n as int) =~= t@.skip(1));
            }
            return Ok(Parsed::Addr(tok));
        } else {
            return Err(AsmError::MalformedAddress(t));
        }
    }
    let e = find_char(t.as_str(), '=');
    let (dest, rest): (String, String) = if e < n {
        (t.as_str().substring_char(0, e).to_owned(), t.as_str().substring_char(e + 1, n).to_owned())
    } else {
        (String::new(), t)
    };
    let ghost tv = spec_trim(line@);
    proof {
        if e < n {
            assert(tv.subrange(0, e as int) =~= tv.take(e as int));
            assert(tv.subrange(e as int + 1, n as int) =~= tv.skip(e as int + 1));
        }
    }
    let m = rest.as_str().unicode_len();
    let s = find_char(rest.as_str(), ';');
    let (comp, jump): (String, String) = if s < m {
        (
            rest.as_str().substring_char(0, s).to_owned(),
            rest.as_str().substring_char(s + 1, m).to_owned(),
        )
    } else {
        (rest, String::new())
    };
    proof {
        let restv = if spec_find(tv, '=') < tv.len() {
            tv.skip(spec_find(tv, '=') + 1)
        } else {
            tv
        };
        if s < m {
            assert(restv.subrange(0, s as int) =~= restv.take(s as int));
            assert(restv.subrange(s as int + 1, m as int) =~= restv.skip(s as int + 1));
        }
    }
    Ok(Parsed::Compute(Instruction { dest, comp, jump }))
}

/// The sequence of line views that a sequence of strings denotes.
pub open spec fn line_views(lines: Seq<String>) -> Seq<Seq<char>> {
    Seq::new(lines.len(), |i: int| lines[i]@)
}

/// The sequence of classified-line views that a sequence of `Parsed` denotes.
pub open spec fn parsed_views(ps: Seq<Parsed>) -> Seq<LineKind> {
    Seq::new(ps.len(), |i: int| ps[i]@)
}

/// How a whole program classifies: every line in order, stopping at the
/// first fatal parse error.
pub open spec fn spec_parse_program(lines: Seq<Seq<char>>) -> Result<Seq<LineKind>, ErrView>
    decreases lines.len(),
{
    if lines.len() == 0 {
        Ok(Seq::empty())
    } else {
        match spec_parse_line(lines[0]) {
            Err(e) => Err(e),
            Ok(k) => match spec_parse_program(lines.skip(1)) {
                Err(e) => Err(e),
                Ok(rest) => Ok(seq![k] + rest),
            },
        }
    }
}

/// A program that classifies successfully classifies line by line.
pub proof fn lemma_parse_program_pointwise(lines: Seq<Seq<char>>, p: Seq<LineKind>)
    requires
        spec_parse_program(lines) == Ok::<Seq<LineKind>, ErrView>(p),
    ensures
        p.len() == lines.len(),
        forall|i: int|
            0 <= i < lines.len() ==> spec_parse_line(lines[i]) == Ok::<LineKind, ErrView>(
                #[trigger] p[i],
            ),
    decreases lines.len(),
{
    if lines.len() > 0 {
        let k = spec_parse_line(lines[0]) ->Ok_0;
        let rest = spec_parse_program(lines.skip(1)) ->Ok_0;
        lemma_parse_program_pointwise(lines.skip(1), rest);
        assert(p == seq![k] + rest);
        assert forall|i: int| 0 <= i < lines.len() implies spec_parse_line(lines[i])
            == Ok::<LineKind, ErrView>(#[trigger] p[i]) by {
            if i > 0 {
                assert(lines.skip(1)[i - 1] == lines[i]);
                assert(p[i] == rest[i - 1]);
            }
        }
    }
}

/// Classify a whole program, halting at the first fatal parse error.
pub fn parse_program(lines: &Vec<String>) -> (r: Result<Vec<Parsed>, AsmError>)
    ensures
        match r {
            Ok(v) => spec_parse_program(line_views(lines@)) == Ok::<Seq<LineKind>, ErrView>(
                parsed_views(v@),
            ) && v@.len() == lines@.len(),
            Err(e) => spec_parse_program(line_views(lines@)) == Err::<Seq<LineKind>, ErrView>(e@),
        },
{
    let ghost lv = line_views(lines@);
    let mut out: Vec<Parsed> = Vec::new();
    let mut i: usize = 0;
    proof {
        assert(lv.skip(0) =~= lv);
    }
    while i < lines.len()
        invariant
            0 <= i <= lines@.len(),
            lv == line_views(lines@),
            out@.len() == i,
            spec_parse_program(lv) == match spec_parse_program(lv.skip(i as int)) {
                Ok(rest) => Ok::<Seq<LineKind>, ErrView>(parsed_views(out@) + rest),
                Err(e) => Err::<Seq<LineKind>, ErrView>(e),
            },
        decreases lines@.len() - i,
    {
        let ghost pre = out@;
        proof {
            assert(lv.skip(i as int)[0] == lv[i as int]);
            assert(lv[i as int] == lines@[i as int]@);
            assert(lv.skip(i as int).skip(1) =~= lv.skip(i as int + 1));
        }
        match parse_line(lines[i].as_str()) {
            Ok(p) => {
                out.push(p);
                proof {
                    assert(parsed_views(out@) =~= parsed_views(pre).push(p@));
                    if spec_parse_program(lv.skip(i as int + 1)) is Ok {
                        let rest = spec_parse_program(lv.skip(i as int + 1)) ->Ok_0;
                        assert(parsed_views(pre) + (seq![p@] + rest) =~= parsed_views(out@)
                            + rest);
                    }
                }
            },
            Err(e) => {
                return Err(e);
            },
        }
        i = i + 1;
    }
    proof {
        assert(lv.skip(i as int).len() == 0);
        assert(parsed_views(out@) + Seq::<LineKind>::empty() =~= parsed_views(out@));
    }
    Ok(out)
}

} // verus!
