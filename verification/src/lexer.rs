//! The lexer: source text in, an ordered instruction stream out.
//!
//! Lines are split on newlines (a carriage return before the newline is
//! dropped). An empty line is skipped. A line ending in `:` declares a
//! label. The literal line `end` stops scanning at once. Any other line is
//! split on its first space into a mnemonic and comma-separated operands;
//! a line with no space is skipped as an intentional tolerance.

use vstd::prelude::*;
use crate::text::{find_char, find_char_in, trim, trim_in};

verus! {

/// One lexed line: a label declaration, an instruction with one or two
/// operands, or the end marker. `line` is the 1-based source line number.
#[derive(Debug)]
pub enum Instruction {
    OneArg { name: String, op: String, line: usize },
    TwoArg { name: String, op1: String, op2: String, line: usize },
    Label { name: String, line: usize },
    End { line: usize },
}

/// The mathematical model of an [`Instruction`]: its text as character
/// sequences.
#[verifier::ext_equal]
pub enum InstrV {
    OneArg { name: Seq<char>, op: Seq<char>, line: nat },
    TwoArg { name: Seq<char>, op1: Seq<char>, op2: Seq<char>, line: nat },
    Label { name: Seq<char>, line: nat },
    End { line: nat },
}

impl View for Instruction {
    type V = InstrV;

    open spec fn view(&self) -> InstrV {
        match self {
            Instruction::OneArg { name, op, line } => InstrV::OneArg {
                name: name@,
                op: op@,
                line: *line as nat,
            },
            Instruction::TwoArg { name, op1, op2, line } => InstrV::TwoArg {
                name: name@,
                op1: op1@,
                op2: op2@,
                line: *line as nat,
            },
            Instruction::Label { name, line } => InstrV::Label {
                name: name@,
                line: *line as nat,
            },
            Instruction::End { line } => InstrV::End { line: *line as nat },
        }
    }
}

impl Clone for Instruction {
    /// Cloning keeps the instruction's model.
    fn clone(&self) -> (r: Self)
        ensures
            r@ == self@,
    {
        match self {
            Instruction::OneArg { name, op, line } => Instruction::OneArg {
                name: name.clone(),
                op: op.clone(),
                line: *line,
            },
            Instruction::TwoArg { name, op1, op2, line } => Instruction::TwoArg {
                name: name.clone(),
                op1: op1.clone(),
                op2: op2.clone(),
                line: *line,
            },
            Instruction::Label { name, line } => Instruction::Label {
                name: name.clone(),
                line: *line,
            },
            Instruction::End { line } => Instruction::End { line: *line },
        }
    }
}

/// Whether a line is the literal word `end`.
pub open spec fn is_end_line(line: Seq<char>) -> bool {
    line.len() == 3 && line[0] == 'e' && line[1] == 'n' && line[2] == 'd'
}

/// What one line lexes to: nothing, one instruction, or the end marker
/// that stops the scan.
#[verifier::ext_equal]
pub enum LineClass {
    Skip,
    Emit(InstrV),
    Finish(InstrV),
}

/// Classify one line (already stripped of its line ending), with `n` its
/// 1-based line number.
pub open spec fn classify_line(line: Seq<char>, n: nat) -> LineClass {
    if line.len() == 0 {
        LineClass::Skip
    } else if line.last() == ':' {
        LineClass::Emit(InstrV::Label { name: line.drop_last(), line: n })
    } else if is_end_line(line) {
        LineClass::Finish(InstrV::End { line: n })
    } else {
        let k = find_char(line, ' ');
        if k == line.len() {
            LineClass::Skip
        } else {
            let name = line.subrange(0, k);
            let args = line.subrange(k + 1, line.len() as int);
            let c = find_char(args, ',');
            if c == args.len() {
                LineClass::Emit(InstrV::OneArg { name, op: trim(args), line: n })
            } else {
                let rest = args.subrange(c + 1, args.len() as int);
                let c2 = find_char(rest, ',');
                LineClass::Emit(
                    InstrV::TwoArg {
                        name,
                        op1: trim(args.subrange(0, c)),
                        op2: trim(rest.subrange(0, c2)),
                        line: n,
                    },
                )
            }
        }
    }
}

/// The instruction stream of `s`, with `line_no` lines already consumed.
/// Scanning stops right after the `end` line; later text is never read.
pub open spec fn lex_lines(s: Seq<char>, line_no: nat) -> Seq<InstrV>
    decreases s.len(),
{
    if s.len() == 0 {
        Seq::empty()
    } else {
        let j0 = find_char(s, '\n');
        let j = if 0 <= j0 <= s.len() {
            j0
        } else {
            s.len() as int
        };
        let raw = s.subrange(0, j);
        let line = if j < s.len() && raw.len() > 0 && raw.last() == '\r' {
            raw.drop_last()
        } else {
            raw
        };
        let rest = if j < s.len() {
            s.subrange(j + 1, s.len() as int)
        } else {
            Seq::empty()
        };
        match classify_line(line, line_no + 1) {
            LineClass::Skip => lex_lines(rest, line_no + 1),
            LineClass::Emit(ins) => seq![ins] + lex_lines(rest, line_no + 1),
            LineClass::Finish(ins) => seq![ins],
        }
    }
}

/// The instruction stream of a whole source text.
pub open spec fn spec_lex(s: Seq<char>) -> Seq<InstrV> {
    lex_lines(s, 0)
}

/// What [`classify_exec`] hands back.
enum Lexed {
    SkipLine,
    EmitIns(Instruction),
    FinishIns(Instruction),
}

/// Classify the line `s[start..end]` as [`classify_line`] does.
fn classify_exec(s: &str, start: usize, end: usize, line_no: usize) -> (r: Lexed)
    requires
        start <= end <= s@.len(),
    ensures
        ({
            let cls = classify_line(s@.subrange(start as int, end as int), line_no as nat);
            match r {
                Lexed::SkipLine => cls is Skip,
                Lexed::EmitIns(ins) => cls == LineClass::Emit(ins@),
                Lexed::FinishIns(ins) => cls == LineClass::Finish(ins@),
            }
        }),
{
    let ghost line = s@.subrange(start as int, end as int);
    if start == end {
        return Lexed::SkipLine;
    }
    proof {
        assert(line.last() == s@[end - 1]);
    }
    if s.get_char(end - 1) == ':' {
        let name = s.substring_char(start, end - 1).to_owned();
        proof {
            assert(line.drop_last() =~= s@.subrange(start as int, end - 1));
        }
        return Lexed::EmitIns(Instruction::Label { name, line: line_no });
    }
    proof {
        assert forall|k: int| 0 <= k < line.len() implies line[k] == s@[start + k] by {}
    }
    if end - start == 3 && s.get_char(start) == 'e' && s.get_char(start + 1) == 'n' && s.get_char(
        start + 2,
    ) == 'd' {
        return Lexed::FinishIns(Instruction::End { line: line_no });
    }
    proof {
        assert(!is_end_line(line));
    }
    let ks = find_char_in(s, start, end, ' ');
    if ks == end {
        return Lexed::SkipLine;
    }
    let ghost k = ks - start;
    let name = s.substring_char(start, ks).to_owned();
    proof {
        assert(line.subrange(0, k) =~= s@.subrange(start as int, ks as int));
    }
    let ghost args = line.subrange(k + 1, line.len() as int);
    proof {
        assert(args =~= s@.subrange(ks + 1, end as int));
    }
    let kc = find_char_in(s, ks + 1, end, ',');
    if kc == end {
        // No comma: a single operand, trimmed.
        let (a, b) = trim_in(s, ks + 1, end);
        let op = s.substring_char(a, b).to_owned();
        proof {
            assert(find_char(args, ',') == args.len());
        }
        return Lexed::EmitIns(Instruction::OneArg { name, op, line: line_no });
    }
    let ghost c = kc - (ks + 1);
    proof {
        assert(find_char(args, ',') == c);
        assert(args.subrange(0, c) =~= s@.subrange(ks + 1, kc as int));
    }
    let (a1, b1) = trim_in(s, ks + 1, kc);
    let op1 = s.substring_char(a1, b1).to_owned();
    let ghost rest = args.subrange(c + 1, args.len() as int);
    proof {
        assert(rest =~= s@.subrange(kc + 1, end as int));
    }
    let kc2 = find_char_in(s, kc + 1, end, ',');
    let ghost c2 = kc2 - (kc + 1);
    proof {
        assert(find_char(rest, ',') == c2);
        assert(rest.subrange(0, c2) =~= s@.subrange(kc + 1, kc2 as int));
    }
    let (a2, b2) = trim_in(s, kc + 1, kc2);
    let op2 = s.substring_char(a2, b2).to_owned();
    Lexed::EmitIns(Instruction::TwoArg { name, op1, op2, line: line_no })
}

/// The lexer: holds the source text and accumulates the instruction
/// stream that [`LexerContext::run`] produces.
pub struct LexerContext {
    pub code: String,
    pub dt: Vec<Instruction>,
}

impl LexerContext {
    /// A lexer over `code` with an empty instruction stream.
    pub fn new(code: String) -> (r: LexerContext)
        ensures
            r.code@ == code@,
            r.dt@.len() == 0,
    {
        LexerContext { code, dt: Vec::new() }
    }

    /// Lex the whole source text, appending its instruction stream to
    /// `dt`. Scanning stops right after an `end` line.
    pub fn run(&mut self)
        ensures
            final(self).code == old(self).code,
            final(self).dt@.map_values(|ins: Instruction| ins@) == old(self).dt@.map_values(
                |ins: Instruction| ins@,
            ) + spec_lex(old(self).code@),
    {
        let ghost dt0 = self.dt@.map_values(|ins: Instruction| ins@);
        let code = self.code.clone();
        let s = code.as_str();
        let n = s.unicode_len();
        let mut i: usize = 0;
        let mut line_no: usize = 0;
        let ghost mut done = false;
        proof {
            assert(s@.subrange(0, n as int) =~= s@);
        }
        while i < n
            invariant_except_break
                line_no <= i,
                !done,
            invariant
                i <= n,
                n == s@.len(),
                s@ == code@,
                code@ == old(self).code@,
                self.code == old(self).code,
                dt0 == old(self).dt@.map_values(|ins: Instruction| ins@),
                done ==> dt0 + spec_lex(code@) == self.dt@.map_values(|ins: Instruction| ins@),
                !done ==> dt0 + spec_lex(code@) == self.dt@.map_values(|ins: Instruction| ins@)
                    + lex_lines(s@.subrange(i as int, n as int), line_no as nat),
            ensures
                self.code == old(self).code,
                done ==> dt0 + spec_lex(code@) == self.dt@.map_values(|ins: Instruction| ins@),
                !done ==> i >= n && dt0 + spec_lex(code@) == self.dt@.map_values(
                    |ins: Instruction| ins@,
                ) + lex_lines(s@.subrange(i as int, n as int), line_no as nat),
            decreases n - i,
        {
            let ghost remaining = s@.subrange(i as int, n as int);
            let j = find_char_in(s, i, n, '\n');
            proof {
                assert(find_char(remaining, '\n') == j - i);
                assert(remaining.subrange(0, j - i) =~= s@.subrange(i as int, j as int));
            }
            // Strip a carriage return before the newline.
            let line_end: usize = if j < n && j > i && s.get_char(j - 1) == '\r' {
                j - 1
            } else {
                j
            };
            proof {
                let raw = remaining.subrange(0, j - i);
                if j < n && j > i && s@[j - 1] == '\r' {
                    assert(raw.last() == s@[j - 1]);
                    assert(raw.drop_last() =~= s@.subrange(i as int, line_end as int));
                } else {
                    if j < n && j > i {
                        assert(raw.last() == s@[j - 1]);
                    }
                    assert(raw =~= s@.subrange(i as int, line_end as int));
                }
            }
            line_no += 1;
            let cls = classify_exec(s, i, line_end, line_no);
            let ghost emitted = self.dt@.map_values(|ins: Instruction| ins@);
            let ghost rest_lex = if j < n {
                lex_lines(s@.subrange(j + 1, n as int), line_no as nat)
            } else {
                lex_lines(Seq::<char>::empty(), line_no as nat)
            };
            proof {
                if j < n {
                    assert(remaining.subrange(j - i + 1, remaining.len() as int) =~= s@.subrange(
                        j + 1,
                        n as int,
                    ));
                }
            }
            let mut finish = false;
            match cls {
                Lexed::SkipLine => {
                    proof {
                        assert(lex_lines(remaining, (line_no - 1) as nat) == rest_lex);
                    }
                },
                Lexed::EmitIns(ins) => {
                    let ghost insv = ins@;
                    self.dt.push(ins);
                    proof {
                        assert(lex_lines(remaining, (line_no - 1) as nat) == seq![insv] + rest_lex);
                        assert(self.dt@.map_values(|ins: Instruction| ins@) =~= emitted
                            + seq![insv]);
                        assert(emitted + (seq![insv] + rest_lex) =~= (emitted + seq![insv])
                            + rest_lex);
                    }
                },
                Lexed::FinishIns(ins) => {
                    let ghost insv = ins@;
                    self.dt.push(ins);
                    proof {
                        assert(lex_lines(remaining, (line_no - 1) as nat) == seq![insv]);
                        assert(self.dt@.map_values(|ins: Instruction| ins@) =~= emitted
                            + seq![insv]);
                        done = true;
                    }
                    finish = true;
                },
            }
            if finish {
                break ;
            }
            if j >= n {
                proof {
                    assert(lex_lines(Seq::<char>::empty(), line_no as nat) =~= Seq::<
                        InstrV,
                    >::empty());
                    assert(self.dt@.map_values(|ins: Instruction| ins@) + Seq::<InstrV>::empty()
                        =~= self.dt@.map_values(|ins: Instruction| ins@));
                    done = true;
                }
                i = n;
                break ;
            }
            i = j + 1;
        }
        proof {
            if !done {
                assert(s@.subrange(i as int, n as int) =~= Seq::<char>::empty());
                assert(lex_lines(s@.subrange(i as int, n as int), line_no as nat) =~= Seq::<
                    InstrV,
                >::empty());
                assert(self.dt@.map_values(|ins: Instruction| ins@) + Seq::<InstrV>::empty()
                    =~= self.dt@.map_values(|ins: Instruction| ins@));
            }
        }
    }
}

} // verus!
