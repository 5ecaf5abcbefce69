//! Programs: their instructions, how a text is read as a program and how a
//! program is written out as text.
//!
//! A program text holds one instruction on each line. A line ends at a line
//! feed or at the end of the text; a carriage return at the end of a line
//! does not belong to it. A line without a character is skipped. Any other
//! line is cut into words at white space: two words name a gate and a
//! line of the register, three words name a gate and two lines.

use crate::text::{chars_of, split_words, texts, words};
use vstd::prelude::*;

verus! {

/// One instruction of a program.
#[derive(Clone, Debug, PartialEq, Eq)]
pub enum Instruction {
    /// A line that is no instruction.
    Malformed,
    /// A gate and the line it acts on.
    Single(String, String),
    /// A gate and the two lines it acts on.
    Double(String, String, String),
}

/// An instruction as contracts see it.
pub ghost enum InstructionView {
    Malformed,
    Single(Seq<char>, Seq<char>),
    Double(Seq<char>, Seq<char>, Seq<char>),
}

impl View for Instruction {
    type V = InstructionView;

    open spec fn view(&self) -> InstructionView {
        match self {
            Instruction::Malformed => InstructionView::Malformed,
            Instruction::Single(gate, qb) => InstructionView::Single(gate@, qb@),
            Instruction::Double(gate, a, b) => InstructionView::Double(gate@, a@, b@),
        }
    }
}

/// The instructions of a list, each by its view.
pub open spec fn instruction_views(program: Seq<Instruction>) -> Seq<InstructionView> {
    Seq::new(program.len(), |i: int| program[i]@)
}

/// The instruction that a line of these words gives.
pub open spec fn instruction_of(ws: Seq<Seq<char>>) -> InstructionView {
    if ws.len() == 2 {
        InstructionView::Single(ws[0], ws[1])
    } else if ws.len() == 3 {
        InstructionView::Double(ws[0], ws[1], ws[2])
    } else {
        InstructionView::Malformed
    }
}

/// A line without the carriage return at its end, if it has one.
pub open spec fn strip_cr(line: Seq<char>) -> Seq<char> {
    if line.len() > 0 && line.last() == '\r' {
        line.drop_last()
    } else {
        line
    }
}

/// The instruction of a line, or none where the line has no character.
pub open spec fn line_instructions(line: Seq<char>) -> Seq<InstructionView> {
    let stripped = strip_cr(line);
    if stripped.len() == 0 {
        Seq::empty()
    } else {
        seq![instruction_of(words(stripped))]
    }
}

/// The instructions of the lines of `s` that end at or after `from`, where
/// the line being read at `from` began at `cur`.
pub open spec fn parse_from(s: Seq<char>, from: int, cur: int) -> Seq<InstructionView>
    decreases s.len() - from,
{
    if from >= s.len() {
        line_instructions(s.subrange(cur, s.len() as int))
    } else if s[from] == '\n' {
        line_instructions(s.subrange(cur, from)) + parse_from(s, from + 1, from + 1)
    } else {
        parse_from(s, from + 1, cur)
    }
}

/// The instructions that a program text holds, in order.
pub open spec fn parse_program(s: Seq<char>) -> Seq<InstructionView> {
    parse_from(s, 0, 0)
}

/// Whether one of the instructions is malformed.
pub open spec fn has_malformed(program: Seq<InstructionView>) -> bool {
    exists|i: int| 0 <= i < program.len() && program[i] is Malformed
}

/// The instruction that the words of a line give.
pub fn make_instruction(ws: &Vec<String>) -> (r: Instruction)
    ensures
        r@ == instruction_of(texts(ws@)),
{
    if ws.len() == 2 {
        Instruction::Single(ws[0].clone(), ws[1].clone())
    } else if ws.len() == 3 {
        Instruction::Double(ws[0].clone(), ws[1].clone(), ws[2].clone())
    } else {
        Instruction::Malformed
    }
}

/// Adds to `out` the instruction of the line of `text` that runs from `cur`
/// up to `end`, if the line has one.
fn push_line(text: &str, chars: &Vec<char>, cur: usize, end: usize, out: &mut Vec<Instruction>)
    requires
        chars@ == text@,
        cur <= end <= chars@.len(),
    ensures
        instruction_views(final(out)@) == instruction_views(old(out)@) + line_instructions(
            text@.subrange(cur as int, end as int),
        ),
{
    let stop = if end > cur && chars[end - 1] == '\r' {
        end - 1
    } else {
        end
    };
    let ghost before = instruction_views(out@);
    let ghost line = text@.subrange(cur as int, end as int);
    assert(strip_cr(line) =~= text@.subrange(cur as int, stop as int));
    if stop > cur {
        let ws = split_words(text.substring_char(cur, stop));
        out.push(make_instruction(&ws));
    }
    assert(instruction_views(out@) =~= before + line_instructions(line));
}

/// The instructions that a program text holds, in order.
pub fn parse(text: &str) -> (r: Vec<Instruction>)
    ensures
        instruction_views(r@) == parse_program(text@),
{
    let chars = chars_of(text);
    let n = chars.len();
    let mut out: Vec<Instruction> = Vec::new();
    let mut cur: usize = 0;
    let mut i: usize = 0;
    assert(instruction_views(out@) + parse_from(text@, 0, 0) =~= parse_program(text@));
    while i < n
        invariant
            chars@ == text@,
            n == chars@.len(),
            cur <= i <= n,
            instruction_views(out@) + parse_from(text@, i as int, cur as int) == parse_program(
                text@,
            ),
        decreases n - i,
    {
        if chars[i] == '\n' {
            let ghost before = instruction_views(out@);
            let ghost line = line_instructions(text@.subrange(cur as int, i as int));
            push_line(text, &chars, cur, i, &mut out);
            assert(before + (line + parse_from(text@, i + 1, i + 1)) =~= (before + line)
                + parse_from(text@, i + 1, i + 1));
            cur = i + 1;
        }
        i += 1;
    }
    push_line(text, &chars, cur, n, &mut out);
    out
}

/// Whether one of the instructions is malformed.
pub fn any_malformed(program: &Vec<Instruction>) -> (r: bool)
    ensures
        r == has_malformed(instruction_views(program@)),
{
    let mut i: usize = 0;
    while i < program.len()
        invariant
            i <= program@.len(),
            forall|k: int| 0 <= k < i ==> !(instruction_views(program@)[k] is Malformed),
        decreases program@.len() - i,
    {
        match &program[i] {
            Instruction::Malformed => {
                assert(instruction_views(program@)[i as int] is Malformed);
                return true;
            },
            _ => {},
        }
        i += 1;
    }
    false
}

/// The text of one instruction: its words with one space between them and
/// a line feed after them; nothing for a malformed instruction.
pub open spec fn render_one(instruction: InstructionView) -> Seq<char> {
    match instruction {
        InstructionView::Malformed => Seq::empty(),
        InstructionView::Single(gate, qb) => gate + seq![' '] + qb + seq!['\n'],
        InstructionView::Double(gate, a, b) => gate + seq![' '] + a + seq![' '] + b + seq!['\n'],
    }
}

/// The text of a program: the texts of its instructions, one after the
/// other.
pub open spec fn render(program: Seq<InstructionView>) -> Seq<char>
    decreases program.len(),
{
    if program.len() == 0 {
        Seq::empty()
    } else {
        render(program.drop_last()) + render_one(program.last())
    }
}

/// The text of a program.
pub fn render_program(program: &Vec<Instruction>) -> (r: String)
    ensures
        r@ == render(instruction_views(program@)),
{
    let ghost views = instruction_views(program@);
    let mut text = String::new();
    let mut i: usize = 0;
    proof {
        reveal_strlit(" ");
        reveal_strlit("\n");
        assert(views.take(0) =~= Seq::<InstructionView>::empty());
    }
    while i < program.len()
        invariant
            views == instruction_views(program@),
            i <= program@.len(),
            text@ == render(views.take(i as int)),
            " "@ == seq![' '],
            "\n"@ == seq!['\n'],
        decreases program@.len() - i,
    {
        proof {
            assert(views.take(i + 1).drop_last() =~= views.take(i as int));
            assert(views.take(i + 1).last() == program@[i as int]@);
        }
        match &program[i] {
            Instruction::Single(gate, qb) => {
                text.append(gate.as_str());
                text.append(" ");
                text.append(qb.as_str());
                text.append("\n");
            },
            Instruction::Double(gate, a, b) => {
                text.append(gate.as_str());
                text.append(" ");
                text.append(a.as_str());
                text.append(" ");
                text.append(b.as_str());
                text.append("\n");
            },
            Instruction::Malformed => {},
        }
        assert(text@ =~= render(views.take(i as int)) + render_one(program@[i as int]@));
        i += 1;
    }
    assert(views.take(program@.len() as int) =~= views);
    text
}

} // verus!
