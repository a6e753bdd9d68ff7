//! The program model: the instruction set of the row-level target machine,
//! the per-instruction latency and energy table, and the emitted program with
//! its accumulated cost estimates.

use vstd::prelude::*;
use vstd::string::StringExecFns;

use crate::architecture::{spec_render_address, PRADAArchitecture, RowAddress};

verus! {

/// Latency of one AAP row copy, in nanoseconds.
pub const ROWCOPY_LATENCY_NS: u64 = 100;

/// Energy of one AAP row copy.
pub const ROWCOPY_ENERGY: u64 = 50;

/// Latency of one triple-row activation, in nanoseconds.
pub const TRA_LATENCY_NS: u64 = 49;

/// Energy of one triple-row activation.
pub const TRA_ENERGY: u64 = 150;

/// Latency of one in-place negation, in nanoseconds.
pub const NEGATE_LATENCY_NS: u64 = 35;

/// Energy of one in-place negation.
pub const NEGATE_ENERGY: u64 = 100;

/// One instruction of the row-level target machine. All operands are packed
/// row addresses.
#[derive(Clone, Copy, PartialEq, Eq, Structural, Debug)]
pub enum Instruction {
    /// Row copy to a single destination: `dst <- src`.
    AAPRowCopy(RowAddress, RowAddress),
    /// Triple-row activation: all three rows receive the majority of their
    /// contents (destructive on all three).
    AAPTRA(RowAddress, RowAddress, RowAddress),
    /// Negate the operand row in place.
    N(RowAddress),
}

impl Instruction {
    /// Latency of the instruction, from the reference table.
    pub open spec fn spec_latency(self) -> u64 {
        match self {
            Instruction::AAPRowCopy(_, _) => ROWCOPY_LATENCY_NS,
            Instruction::AAPTRA(_, _, _) => TRA_LATENCY_NS,
            Instruction::N(_) => NEGATE_LATENCY_NS,
        }
    }

    /// Energy of the instruction, from the reference table.
    pub open spec fn spec_energy(self) -> u64 {
        match self {
            Instruction::AAPRowCopy(_, _) => ROWCOPY_ENERGY,
            Instruction::AAPTRA(_, _, _) => TRA_ENERGY,
            Instruction::N(_) => NEGATE_ENERGY,
        }
    }

    /// Latency of the instruction in nanoseconds.
    pub fn get_latency_in_ns(&self) -> (r: u64)
        ensures
            r == self.spec_latency(),
    {
        match self {
            Instruction::AAPRowCopy(_, _) => ROWCOPY_LATENCY_NS,
            Instruction::AAPTRA(_, _, _) => TRA_LATENCY_NS,
            Instruction::N(_) => NEGATE_LATENCY_NS,
        }
    }

    /// Energy drawn by the instruction.
    pub fn get_energy(&self) -> (r: u64)
        ensures
            r == self.spec_energy(),
    {
        match self {
            Instruction::AAPRowCopy(_, _) => ROWCOPY_ENERGY,
            Instruction::AAPTRA(_, _, _) => TRA_ENERGY,
            Instruction::N(_) => NEGATE_ENERGY,
        }
    }

    /// The row addresses the instruction reads from.
    pub open spec fn spec_input_operands(self) -> Seq<RowAddress> {
        match self {
            Instruction::AAPRowCopy(from, _) => seq![from],
            Instruction::AAPTRA(a, b, c) => seq![a, b, c],
            Instruction::N(a) => seq![a],
        }
    }

    /// The row addresses whose contents the instruction depends on.
    pub fn used_addresses(&self) -> (r: Vec<RowAddress>)
        ensures
            r@ == self.spec_input_operands(),
    {
        match self {
            Instruction::AAPRowCopy(from, _) => vec![*from],
            Instruction::AAPTRA(a, b, c) => vec![*a, *b, *c],
            Instruction::N(a) => vec![*a],
        }
    }

    /// The row addresses the instruction takes its inputs from.
    pub fn input_operands(&self) -> (r: Vec<RowAddress>)
        ensures
            r@ == self.spec_input_operands(),
    {
        match self {
            Instruction::AAPRowCopy(from, _) => vec![*from],
            Instruction::AAPTRA(a, b, c) => vec![*a, *b, *c],
            Instruction::N(a) => vec![*a],
        }
    }
}

/// Sum of the latencies of a sequence of instructions.
pub open spec fn sum_latency(s: Seq<Instruction>) -> int
    decreases s.len(),
{
    if s.len() == 0 {
        0
    } else {
        sum_latency(s.drop_last()) + s.last().spec_latency()
    }
}

/// Sum of the energies of a sequence of instructions.
pub open spec fn sum_energy(s: Seq<Instruction>) -> int
    decreases s.len(),
{
    if s.len() == 0 {
        0
    } else {
        sum_energy(s.drop_last()) + s.last().spec_energy()
    }
}

/// Both sums are nonnegative and grow by at most 150 per instruction.
pub proof fn lemma_sum_bounds(s: Seq<Instruction>)
    ensures
        0 <= sum_latency(s) <= 150 * s.len(),
        0 <= sum_energy(s) <= 150 * s.len(),
    decreases s.len(),
{
    if s.len() > 0 {
        lemma_sum_bounds(s.drop_last());
    }
}

/// An ordered program of row-level instructions for one architecture, with the
/// summed runtime and energy estimates.
pub struct Program {
    /// The architecture the program was compiled for.
    pub architecture: PRADAArchitecture,
    /// The instructions, in execution order.
    pub instructions: Vec<Instruction>,
    /// Sum of the per-instruction latencies, in nanoseconds.
    pub runtime_estimate: u64,
    /// Sum of the per-instruction energies.
    pub energy_consumption_estimate: u64,
}

impl Program {
    /// Builds a program from an instruction list; the runtime and energy
    /// estimates are the sums of the per-instruction table entries.
    pub fn new(architecture: &PRADAArchitecture, instructions: Vec<Instruction>) -> (r: Program)
        requires
            sum_latency(instructions@) <= u64::MAX,
            sum_energy(instructions@) <= u64::MAX,
        ensures
            r.architecture == *architecture,
            r.instructions@ == instructions@,
            r.runtime_estimate == sum_latency(instructions@),
            r.energy_consumption_estimate == sum_energy(instructions@),
    {
        let mut runtime: u64 = 0;
        let mut energy: u64 = 0;
        let n = instructions.len();
        let mut i: usize = 0;
        proof {
            assert(instructions@.subrange(0, 0) =~= Seq::<Instruction>::empty());
        }
        while i < n
            invariant
                i <= n,
                n == instructions@.len(),
                runtime == sum_latency(instructions@.subrange(0, i as int)),
                energy == sum_energy(instructions@.subrange(0, i as int)),
                sum_latency(instructions@) <= u64::MAX,
                sum_energy(instructions@) <= u64::MAX,
            decreases n - i,
        {
            proof {
                let pre = instructions@.subrange(0, i as int);
                let post = instructions@.subrange(0, i + 1);
                assert(post.drop_last() =~= pre);
                lemma_sum_suffix(instructions@, i + 1);
            }
            runtime = runtime + instructions[i].get_latency_in_ns();
            energy = energy + instructions[i].get_energy();
            i = i + 1;
        }
        proof {
            assert(instructions@.subrange(0, n as int) =~= instructions@);
        }
        Program {
            architecture: *architecture,
            instructions,
            runtime_estimate: runtime,
            energy_consumption_estimate: energy,
        }
    }
}

/// The text form of one instruction: the opcode name and its operands as
/// `subarray.local` pairs, on a line of its own.
pub open spec fn spec_render_instruction(i: Instruction) -> Seq<char> {
    match i {
        Instruction::AAPRowCopy(a, b) => "AAPRowCopy "@ + spec_render_address(a) + " "@
            + spec_render_address(b) + "\n"@,
        Instruction::AAPTRA(a, b, c) => "AAPTRA "@ + spec_render_address(a) + " "@
            + spec_render_address(b) + " "@ + spec_render_address(c) + "\n"@,
        Instruction::N(a) => "N "@ + spec_render_address(a) + "\n"@,
    }
}

/// The text form of a program: one instruction per line, in order.
pub open spec fn spec_render(s: Seq<Instruction>) -> Seq<char>
    decreases s.len(),
{
    if s.len() == 0 {
        Seq::empty()
    } else {
        spec_render(s.drop_last()) + spec_render_instruction(s.last())
    }
}

impl Program {
    /// Renders the program, one instruction per line.
    pub fn render(&self) -> (s: String)
        ensures
            s@ == spec_render(self.instructions@),
    {
        let mut out = String::new();
        let n = self.instructions.len();
        let mut i: usize = 0;
        proof {
            assert(self.instructions@.subrange(0, 0) =~= Seq::<Instruction>::empty());
        }
        while i < n
            invariant
                i <= n,
                n == self.instructions@.len(),
                out@ == spec_render(self.instructions@.subrange(0, i as int)),
            decreases n - i,
        {
            let instr = self.instructions[i];
            match instr {
                Instruction::AAPRowCopy(a, b) => {
                    out.append("AAPRowCopy ");
                    let ra = a.render();
                    out.append(ra.as_str());
                    out.append(" ");
                    let rb = b.render();
                    out.append(rb.as_str());
                    out.append("\n");
                },
                Instruction::AAPTRA(a, b, c) => {
                    out.append("AAPTRA ");
                    let ra = a.render();
                    out.append(ra.as_str());
                    out.append(" ");
                    let rb = b.render();
                    out.append(rb.as_str());
                    out.append(" ");
                    let rc = c.render();
                    out.append(rc.as_str());
                    out.append("\n");
                },
                Instruction::N(a) => {
                    out.append("N ");
                    let ra = a.render();
                    out.append(ra.as_str());
                    out.append("\n");
                },
            }
            proof {
                let pre = self.instructions@.subrange(0, i as int);
                let post = self.instructions@.subrange(0, i + 1);
                assert(post.drop_last() =~= pre);
                assert(post.last() == instr);
                assert(out@ =~= spec_render(pre) + spec_render_instruction(instr));
            }
            i = i + 1;
        }
        proof {
            assert(self.instructions@.subrange(0, n as int) =~= self.instructions@);
        }
        out
    }
}

/// The sum over a prefix never exceeds the sum over the whole sequence.
pub proof fn lemma_sum_suffix(s: Seq<Instruction>, i: int)
    requires
        0 <= i <= s.len(),
    ensures
        sum_latency(s.subrange(0, i)) <= sum_latency(s),
        sum_energy(s.subrange(0, i)) <= sum_energy(s),
    decreases s.len() - i,
{
    if i < s.len() {
        lemma_sum_suffix(s, i + 1);
        let pre = s.subrange(0, i);
        let post = s.subrange(0, i + 1);
        assert(post.drop_last() =~= pre);
        assert(sum_latency(post) == sum_latency(pre) + post.last().spec_latency());
        assert(sum_energy(post) == sum_energy(pre) + post.last().spec_energy());
    } else {
        assert(s.subrange(0, i) =~= s);
    }
}

} // verus!
