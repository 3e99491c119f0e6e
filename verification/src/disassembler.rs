use vstd::prelude::*;
use crate::compiler::{Chunk, Instruction, chunk_well_formed, instr_ok};
use crate::value::{Value, ValueView, ChunkView, chunk_view, value_view, display_view, is_renderer, renderer_of};
use crate::text::{decimal, zero_pad, append_decimal, append_decimal_padded, push_char};

verus! {

// ---- listings, as text ---------------------------------------------------------

/// `n` spaces.
pub open spec fn spaces(n: nat) -> Seq<char> {
    Seq::new(n, |i: int| ' ')
}

/// `s` left-aligned in a field of `width` characters (`{:<width}`).
pub open spec fn pad_right(s: Seq<char>, width: nat) -> Seq<char> {
    if s.len() >= width { s } else { s + spaces((width - s.len()) as nat) }
}

/// `s` right-aligned in a field of `width` characters (`{:>width}`).
pub open spec fn pad_left(s: Seq<char>, width: nat) -> Seq<char> {
    if s.len() >= width { s } else { spaces((width - s.len()) as nat) + s }
}

/// An instruction with a constant operand: name, index and the constant.
pub open spec fn with_constant(name: Seq<char>, idx: usize, shown: Seq<char>) -> Seq<char> {
    pad_right(name, 16) + " "@ + pad_left(decimal(idx as nat), 4) + "    ; "@ + shown
}

/// An instruction whose constant is a name, shown in quotes.
pub open spec fn with_name(c: ChunkView, name: Seq<char>, idx: usize, show: spec_fn(u64) -> Seq<char>) -> Seq<char> {
    with_constant(name, idx, "'"@ + display_view(c.constants[idx as int], show) + "'"@)
}

/// The text of one instruction of chunk `c`.
pub open spec fn instruction_text(c: ChunkView, i: Instruction, show: spec_fn(u64) -> Seq<char>) -> Seq<char> {
    match i {
        Instruction::Constant(idx) => with_constant("Constant"@, idx, display_view(c.constants[idx as int], show)),
        Instruction::Add => "Add"@,
        Instruction::Sub => "Sub"@,
        Instruction::Mul => "Mul"@,
        Instruction::Div => "Div"@,
        Instruction::Eq => "Eq"@,
        Instruction::Neq => "Neq"@,
        Instruction::Gt => "Gt"@,
        Instruction::Lt => "Lt"@,
        Instruction::Gte => "Gte"@,
        Instruction::Lte => "Lte"@,
        Instruction::Pop => "Pop"@,
        Instruction::Print => "Print"@,
        Instruction::DefineGlobal(idx) => with_name(c, "DefineGlobal"@, idx, show),
        Instruction::GetGlobal(idx) => with_name(c, "GetGlobal"@, idx, show),
        Instruction::SetGlobal(idx) => with_name(c, "SetGlobal"@, idx, show),
        Instruction::GetProperty(idx) => with_name(c, "GetProperty"@, idx, show),
        Instruction::GetIndex => "GetIndex"@,
        Instruction::GetLocal(slot) => pad_right("GetLocal"@, 16) + " "@ + decimal(slot as nat),
        Instruction::SetLocal(slot) => pad_right("SetLocal"@, 16) + " "@ + decimal(slot as nat),
        Instruction::Jump(t) => pad_right("Jump"@, 16) + " -> "@ + zero_pad(decimal(t as nat), 4),
        Instruction::JumpIfFalse(t) => pad_right("JumpIfFalse"@, 16) + " -> "@ + zero_pad(decimal(t as nat), 4),
        Instruction::Call(n) => pad_right("Call"@, 16) + " ("@ + decimal(n as nat) + ")"@,
        Instruction::Return => "Return"@,
        Instruction::Love(idx) => with_name(c, "Love"@, idx, show),
        Instruction::Export(idx) => with_name(c, "Export"@, idx, show),
    }
}

/// The line of the instruction at `offset`, without a line break.
pub open spec fn instruction_line(c: ChunkView, offset: int, show: spec_fn(u64) -> Seq<char>) -> Seq<char> {
    zero_pad(decimal(offset as nat), 4) + "  "@ + instruction_text(c, c.code[offset], show)
}

/// The first `n` lines of the listing of `c`'s code.
pub open spec fn code_lines(c: ChunkView, n: nat, show: spec_fn(u64) -> Seq<char>) -> Seq<char>
    decreases n,
{
    if n == 0 {
        Seq::empty()
    } else {
        code_lines(c, (n - 1) as nat, show) + instruction_line(c, n - 1, show) + "\n"@
    }
}

/// Every constant operand of `c` and of the functions in its pool is an index
/// of its constant pool.
pub open spec fn operands_in_range(c: ChunkView) -> bool
    decreases c,
{
    &&& forall|i: int| 0 <= i < c.code.len() ==> #[trigger] operand_ok(c.code[i], c.constants.len())
    &&& forall|j: int| 0 <= j < c.constants.len() ==> match #[trigger] c.constants[j] {
        ValueView::CompiledFunction { chunk, .. } => {
            operands_in_range(chunk)
        },
        _ => true,
    }
}

/// An instruction's constant operand, if it has one, is below `n`.
pub open spec fn operand_ok(i: Instruction, n: nat) -> bool {
    match i {
        Instruction::Constant(k) | Instruction::DefineGlobal(k) | Instruction::GetGlobal(k)
        | Instruction::SetGlobal(k) | Instruction::GetProperty(k) | Instruction::Love(k)
        | Instruction::Export(k) => k < n,
        _ => true,
    }
}

/// The listing of a chunk: a header, one line per instruction, then the
/// listings of the functions in its constant pool, each after a blank line.
pub open spec fn chunk_listing(c: ChunkView, label: Seq<char>, show: spec_fn(u64) -> Seq<char>) -> Seq<char>
    decreases c, c.constants.len() + 1,
{
    "== "@ + label + " ==\n"@ + code_lines(c, c.code.len(), show) + nested_listings(c, c.constants.len(), show)
}

/// The listings of the functions among the first `n` constants of `c`.
pub open spec fn nested_listings(c: ChunkView, n: nat, show: spec_fn(u64) -> Seq<char>) -> Seq<char>
    decreases c, n,
{
    if n == 0 || n > c.constants.len() {
        Seq::empty()
    } else {
        nested_listings(c, (n - 1) as nat, show) + match c.constants[n - 1] {
            ValueView::CompiledFunction { name, chunk, .. } => {
                proof { assert(decreases_to!(c => c.constants[n - 1])); }
                "\n"@ + chunk_listing(chunk, "fn "@ + name, show)
            },
            _ => Seq::empty(),
        }
    }
}


// ---- producing listings --------------------------------------------------------

pub(crate) fn push_spaces(out: &mut String, n: usize)
    ensures
        final(out)@ == old(out)@ + spaces(n as nat),
{
    let ghost start = out@;
    let mut i: usize = 0;
    while i < n
        invariant
            i <= n,
            out@ == start + spaces(i as nat),
        decreases n - i,
    {
        push_char(out, ' ');
        i = i + 1;
        assert(out@ =~= start + spaces(i as nat));
    }
}

/// Appends `s` left-aligned in `width` characters.
fn push_padded_right(out: &mut String, s: &str, width: usize)
    ensures
        final(out)@ == old(out)@ + pad_right(s@, width as nat),
{
    let ghost start = out@;
    let len = s.unicode_len();
    out.append(s);
    if len < width {
        push_spaces(out, width - len);
    }
    assert(out@ =~= start + pad_right(s@, width as nat));
}

/// Appends the decimal notation of `n` right-aligned in `width` characters.
fn push_decimal_padded_left(out: &mut String, n: usize, width: usize)
    ensures
        final(out)@ == old(out)@ + pad_left(decimal(n as nat), width as nat),
{
    let ghost start = out@;
    let mut digits = String::new();
    append_decimal(&mut digits, n);
    assert(digits@ =~= decimal(n as nat));
    let len = digits.as_str().unicode_len();
    if len < width {
        push_spaces(out, width - len);
    }
    out.append(digits.as_str());
    assert(out@ =~= start + pad_left(decimal(n as nat), width as nat));
}

fn push_with_constant(out: &mut String, name: &str, idx: usize, shown: &str)
    ensures
        final(out)@ == old(out)@ + with_constant(name@, idx, shown@),
{
    let ghost start = out@;
    push_padded_right(out, name, 16);
    out.append(" ");
    push_decimal_padded_left(out, idx, 4);
    out.append("    ; ");
    out.append(shown);
    assert(out@ =~= start + with_constant(name@, idx, shown@));
}

fn push_with_name<F: Fn(u64) -> String>(out: &mut String, chunk: &Chunk, name: &str, idx: usize, show: &F)
    requires
        is_renderer(*show),
        idx < chunk.constants@.len(),
    ensures
        final(out)@ == old(out)@ + with_name(chunk_view(*chunk), name@, idx, renderer_of(*show)),
{
    let d = chunk.constants[idx].display(show);
    let mut shown = String::from_str("'");
    shown.append(d.as_str());
    shown.append("'");
    push_with_constant(out, name, idx, shown.as_str());
}

fn push_instruction_text<F: Fn(u64) -> String>(out: &mut String, chunk: &Chunk, i: Instruction, show: &F)
    requires
        is_renderer(*show),
        operand_ok(i, chunk.constants@.len()),
    ensures
        final(out)@ == old(out)@ + instruction_text(chunk_view(*chunk), i, renderer_of(*show)),
{
    let ghost start = out@;
    match i {
        Instruction::Constant(idx) => {
            let d = chunk.constants[idx].display(show);
            push_with_constant(out, "Constant", idx, d.as_str());
        },
        Instruction::Add => out.append("Add"),
        Instruction::Sub => out.append("Sub"),
        Instruction::Mul => out.append("Mul"),
        Instruction::Div => out.append("Div"),
        Instruction::Eq => out.append("Eq"),
        Instruction::Neq => out.append("Neq"),
        Instruction::Gt => out.append("Gt"),
        Instruction::Lt => out.append("Lt"),
        Instruction::Gte => out.append("Gte"),
        Instruction::Lte => out.append("Lte"),
        Instruction::Pop => out.append("Pop"),
        Instruction::Print => out.append("Print"),
        Instruction::DefineGlobal(idx) => push_with_name(out, chunk, "DefineGlobal", idx, show),
        Instruction::GetGlobal(idx) => push_with_name(out, chunk, "GetGlobal", idx, show),
        Instruction::SetGlobal(idx) => push_with_name(out, chunk, "SetGlobal", idx, show),
        Instruction::GetProperty(idx) => push_with_name(out, chunk, "GetProperty", idx, show),
        Instruction::GetIndex => out.append("GetIndex"),
        Instruction::GetLocal(slot) => {
            push_padded_right(out, "GetLocal", 16);
            out.append(" ");
            append_decimal(out, slot);
        },
        Instruction::SetLocal(slot) => {
            push_padded_right(out, "SetLocal", 16);
            out.append(" ");
            append_decimal(out, slot);
        },
        Instruction::Jump(t) => {
            push_padded_right(out, "Jump", 16);
            out.append(" -> ");
            append_decimal_padded(out, t, 4);
        },
        Instruction::JumpIfFalse(t) => {
            push_padded_right(out, "JumpIfFalse", 16);
            out.append(" -> ");
            append_decimal_padded(out, t, 4);
        },
        Instruction::Call(n) => {
            push_padded_right(out, "Call", 16);
            out.append(" (");
            append_decimal(out, n);
            out.append(")");
        },
        Instruction::Return => out.append("Return"),
        Instruction::Love(idx) => push_with_name(out, chunk, "Love", idx, show),
        Instruction::Export(idx) => push_with_name(out, chunk, "Export", idx, show),
    }
    assert(out@ =~= start + instruction_text(chunk_view(*chunk), i, renderer_of(*show)));
}

/// The line of the instruction at `offset`, e.g. `0003  GetGlobal           1    ; '"x"'`.
pub fn disassemble_instruction<F: Fn(u64) -> String>(chunk: &Chunk, offset: usize, show: &F) -> (r: String)
    requires
        is_renderer(*show),
        offset < chunk.code@.len(),
        operand_ok(chunk.code@[offset as int], chunk.constants@.len()),
    ensures
        r@ == instruction_line(chunk_view(*chunk), offset as int, renderer_of(*show)),
{
    let mut out = String::new();
    append_decimal_padded(&mut out, offset, 4);
    out.append("  ");
    push_instruction_text(&mut out, chunk, chunk.code[offset], show);
    assert(out@ =~= instruction_line(chunk_view(*chunk), offset as int, renderer_of(*show)));
    out
}

/// The listing of a chunk under the header `== label ==`, followed by the
/// listings of the functions in its constant pool.
pub fn disassemble_chunk<F: Fn(u64) -> String>(chunk: &Chunk, label: &str, show: &F) -> (r: String)
    requires
        is_renderer(*show),
        operands_in_range(chunk_view(*chunk)),
    ensures
        r@ == chunk_listing(chunk_view(*chunk), label@, renderer_of(*show)),
    decreases *chunk,
{
    let ghost c = chunk_view(*chunk);
    let ghost shw = renderer_of(*show);
    let mut out = String::from_str("== ");
    out.append(label);
    out.append(" ==\n");
    let ghost header = out@;
    let mut i: usize = 0;
    while i < chunk.code.len()
        invariant
            i <= chunk.code@.len(),
            c == chunk_view(*chunk),
            shw == renderer_of(*show),
            is_renderer(*show),
            operands_in_range(c),
            out@ == header + code_lines(c, i as nat, shw),
        decreases chunk.code@.len() - i,
    {
        let ghost before = out@;
        append_decimal_padded(&mut out, i, 4);
        out.append("  ");
        assert(operand_ok(c.code[i as int], c.constants.len()));
        push_instruction_text(&mut out, chunk, chunk.code[i], show);
        out.append("\n");
        i = i + 1;
        assert(out@ =~= header + code_lines(c, i as nat, shw));
    }
    let ghost body = out@;
    let mut j: usize = 0;
    while j < chunk.constants.len()
        invariant
            j <= chunk.constants@.len(),
            c == chunk_view(*chunk),
            shw == renderer_of(*show),
            is_renderer(*show),
            operands_in_range(c),
            out@ == body + nested_listings(c, j as nat, shw),
        decreases chunk.constants@.len() - j,
    {
        match &chunk.constants[j] {
            Value::CompiledFunction { name, chunk: inner, .. } => {
                proof {
                    crate::value::lemma_compiled_value(chunk.constants@[j as int]);
                    assert(c.constants[j as int] == value_view(chunk.constants@[j as int]));
                    assert(decreases_to!(*chunk => chunk.constants@[j as int]));
                }
                let mut lbl = String::from_str("fn ");
                lbl.append(name.as_str());
                let sub = disassemble_chunk(inner, lbl.as_str(), show);
                out.append("\n");
                out.append(sub.as_str());
            },
            _ => {},
        }
        j = j + 1;
        assert(out@ =~= body + nested_listings(c, j as nat, shw));
    }
    assert(out@ =~= chunk_listing(c, label@, shw));
    out
}


/// Well-formed bytecode, such as every chunk the compiler produces, can be
/// listed: its constant operands, and those of its functions, are in range.
pub proof fn law_well_formed_listable(c: ChunkView)
    requires
        chunk_well_formed(c),
    ensures
        operands_in_range(c),
    decreases c,
{
    assert forall|i: int| 0 <= i < c.code.len() implies #[trigger] operand_ok(c.code[i], c.constants.len()) by {
        assert(instr_ok(c.code[i], c.constants, c.code.len() as int));
    }
    assert forall|j: int| 0 <= j < c.constants.len() implies match #[trigger] c.constants[j] {
        ValueView::CompiledFunction { chunk, .. } => operands_in_range(chunk),
        _ => true,
    } by {
        if let ValueView::CompiledFunction { chunk, .. } = c.constants[j] {
            assert(decreases_to!(c => c.constants[j]));
            law_well_formed_listable(chunk);
        }
    }
}


/// `true` when the chunk can be listed: `operands_in_range` holds of it.
pub fn can_list(chunk: &Chunk) -> (r: bool)
    ensures
        r == operands_in_range(chunk_view(*chunk)),
    decreases *chunk,
{
    let ghost c = chunk_view(*chunk);
    let mut i: usize = 0;
    while i < chunk.code.len()
        invariant
            i <= chunk.code@.len(),
            c == chunk_view(*chunk),
            forall|k: int| 0 <= k < i ==> #[trigger] operand_ok(c.code[k], c.constants.len()),
        decreases chunk.code@.len() - i,
    {
        let ok = match chunk.code[i] {
            Instruction::Constant(k) | Instruction::DefineGlobal(k) | Instruction::GetGlobal(k)
            | Instruction::SetGlobal(k) | Instruction::GetProperty(k) | Instruction::Love(k)
            | Instruction::Export(k) => k < chunk.constants.len(),
            _ => true,
        };
        if !ok {
            proof { assert(!operand_ok(c.code[i as int], c.constants.len())); }
            return false;
        }
        i = i + 1;
    }
    let mut j: usize = 0;
    while j < chunk.constants.len()
        invariant
            j <= chunk.constants@.len(),
            c == chunk_view(*chunk),
            forall|k: int| 0 <= k < c.code.len() ==> #[trigger] operand_ok(c.code[k], c.constants.len()),
            forall|k: int| 0 <= k < j ==> match #[trigger] c.constants[k] {
                ValueView::CompiledFunction { chunk, .. } => operands_in_range(chunk),
                _ => true,
            },
        decreases chunk.constants@.len() - j,
    {
        match &chunk.constants[j] {
            Value::CompiledFunction { chunk: inner, .. } => {
                proof {
                    crate::value::lemma_compiled_value(chunk.constants@[j as int]);
                    assert(decreases_to!(*chunk => chunk.constants@[j as int]));
                }
                if !can_list(inner) {
                    proof {
                        assert(c.constants[j as int] == value_view(chunk.constants@[j as int]));
                        assert(!match c.constants[j as int] {
                            ValueView::CompiledFunction { chunk, .. } => operands_in_range(chunk),
                            _ => true,
                        });
                    }
                    return false;
                }
            },
            _ => {},
        }
        j = j + 1;
    }
    true
}

} // verus!
