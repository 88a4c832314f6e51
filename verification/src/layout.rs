//! Where the parts of the compiled code lie, and where its labels are defined.

use vstd::prelude::*;

use crate::assembly::{Instruction, Label};
use crate::bytecode::Op;
use crate::jit_compiler::{
    chunk_code, epilogue_code, op_body_code, op_code, ops_code, prologue_code, HelperTable,
};
use crate::machine::label_index;

verus! {

/// Where the code of an operation starts; behind the last operation, where the
/// epilogue starts.
pub open spec fn op_start(
    ops: Seq<Op>,
    helpers: HelperTable,
    addresses: Seq<u64>,
    i: nat,
) -> int {
    (prologue_code().len() + ops_code(ops, helpers, addresses, i).len()) as int
}

proof fn lemma_ops_code_prefix(
    ops: Seq<Op>,
    helpers: HelperTable,
    addresses: Seq<u64>,
    i: nat,
    n: nat,
)
    requires
        i <= n,
    ensures
        ops_code(ops, helpers, addresses, i).len() <= ops_code(ops, helpers, addresses, n).len(),
        forall|p: int|
            0 <= p < ops_code(ops, helpers, addresses, i).len() ==> #[trigger] ops_code(
                ops,
                helpers,
                addresses,
                n,
            )[p] == ops_code(ops, helpers, addresses, i)[p],
    decreases n,
{
    if i < n {
        lemma_ops_code_prefix(ops, helpers, addresses, i, (n - 1) as nat);
    }
}

/// The code of each operation stands in the code of the chunk, right behind
/// that of the operation before it.
pub proof fn law_op_placed(
    ops: Seq<Op>,
    helpers: HelperTable,
    addresses: Seq<u64>,
    i: nat,
)
    requires
        i < ops.len() <= usize::MAX,
    ensures
        op_start(ops, helpers, addresses, i + 1) == op_start(ops, helpers, addresses, i) + op_code(
            ops[i as int],
            i as usize,
            helpers,
            addresses[i as int],
        ).len(),
        op_start(ops, helpers, addresses, i + 1) <= chunk_code(ops, helpers, addresses).len(),
        forall|k: int|
            0 <= k < op_code(ops[i as int], i as usize, helpers, addresses[i as int]).len()
                ==> #[trigger] op_code(ops[i as int], i as usize, helpers, addresses[i as int])[k]
                == chunk_code(ops, helpers, addresses)[op_start(ops, helpers, addresses, i) + k],
{
    lemma_ops_code_prefix(ops, helpers, addresses, i + 1, ops.len());
    let block = op_code(ops[i as int], i as usize, helpers, addresses[i as int]);
    let before = ops_code(ops, helpers, addresses, i);
    let all = ops_code(ops, helpers, addresses, ops.len());
    assert(ops_code(ops, helpers, addresses, i + 1) == before + block);
    assert forall|k: int| 0 <= k < block.len() implies #[trigger] block[k] == chunk_code(
        ops,
        helpers,
        addresses,
    )[op_start(ops, helpers, addresses, i) + k] by {
        assert((before + block)[before.len() + k] == block[k]);
        assert(all[before.len() + k] == block[k]);
    }
}

/// The epilogue stands behind the code of the last operation.
pub proof fn law_epilogue_placed(ops: Seq<Op>, helpers: HelperTable, addresses: Seq<u64>)
    ensures
        op_start(ops, helpers, addresses, ops.len()) + epilogue_code().len() == chunk_code(
            ops,
            helpers,
            addresses,
        ).len(),
        forall|k: int|
            0 <= k < epilogue_code().len() ==> #[trigger] epilogue_code()[k] == chunk_code(
                ops,
                helpers,
                addresses,
            )[op_start(ops, helpers, addresses, ops.len()) + k],
        forall|k: int|
            0 <= k < prologue_code().len() ==> #[trigger] prologue_code()[k] == chunk_code(
                ops,
                helpers,
                addresses,
            )[k],
{
}

/// An index into the code of the operations lies in the code of one of them.
proof fn lemma_locate(
    ops: Seq<Op>,
    helpers: HelperTable,
    addresses: Seq<u64>,
    n: nat,
    p: int,
) -> (i: nat)
    requires
        n <= ops.len(),
        prologue_code().len() <= p < op_start(ops, helpers, addresses, n),
    ensures
        i < n,
        op_start(ops, helpers, addresses, i) <= p < op_start(ops, helpers, addresses, i + 1),
    decreases n,
{
    if n == 0 {
        0
    } else if p >= op_start(ops, helpers, addresses, (n - 1) as nat) {
        (n - 1) as nat
    } else {
        lemma_locate(ops, helpers, addresses, (n - 1) as nat, p)
    }
}

/// The label that the code of an operation defines besides its own.
pub open spec fn inner_label(op: Op, i: usize) -> Option<Label> {
    match op {
        Op::JumpIfFalse(_) => Some(Label::JifCont(i)),
        _ => None,
    }
}

/// The code of an operation defines its own label at its start, the label of a
/// conditional jump at its end, and no other.
proof fn lemma_block_labels(
    op: Op,
    i: usize,
    helpers: HelperTable,
    address: u64,
    k: int,
    label: Label,
)
    requires
        0 <= k < op_code(op, i, helpers, address).len(),
        op_code(op, i, helpers, address)[k] == Instruction::Label(label),
    ensures
        k == 0 ==> label == Label::Op(i),
        k != 0 ==> k == op_code(op, i, helpers, address).len() - 1 && inner_label(op, i) == Some(
            label,
        ),
{
    if k > 0 {
        assert(op_body_code(op, i, helpers, address)[k - 1] == Instruction::Label(label));
    }
}

proof fn lemma_frame_labels(k: int, label: Label)
    ensures
        0 <= k < prologue_code().len() ==> prologue_code()[k] != Instruction::Label(label),
        0 <= k < epilogue_code().len() && epilogue_code()[k] == Instruction::Label(label) ==> k == 0
            && label == Label::Epilogue,
{
}

/// Where a label is defined.
pub open spec fn label_home(
    ops: Seq<Op>,
    helpers: HelperTable,
    addresses: Seq<u64>,
    label: Label,
) -> int {
    match label {
        Label::Op(i) => op_start(ops, helpers, addresses, i as nat),
        Label::JifCont(i) => op_start(ops, helpers, addresses, (i + 1) as nat) - 1,
        Label::Epilogue => op_start(ops, helpers, addresses, ops.len()),
    }
}

/// Whether the code of a chunk defines a label.
pub open spec fn label_defined(ops: Seq<Op>, label: Label) -> bool {
    match label {
        Label::Op(i) => i < ops.len(),
        Label::JifCont(i) => i < ops.len() && ops[i as int] is JumpIfFalse,
        Label::Epilogue => true,
    }
}

/// A label is defined at its home and nowhere else: the code of a chunk holds
/// no label twice.
pub proof fn law_labels_unique(
    ops: Seq<Op>,
    helpers: HelperTable,
    addresses: Seq<u64>,
    p: int,
    label: Label,
)
    requires
        ops.len() <= usize::MAX,
        0 <= p < chunk_code(ops, helpers, addresses).len(),
        chunk_code(ops, helpers, addresses)[p] == Instruction::Label(label),
    ensures
        label_defined(ops, label),
        p == label_home(ops, helpers, addresses, label),
{
    let code = chunk_code(ops, helpers, addresses);
    law_epilogue_placed(ops, helpers, addresses);
    let epi = op_start(ops, helpers, addresses, ops.len());
    if p < prologue_code().len() {
        assert(code[p] == prologue_code()[p]);
        lemma_frame_labels(p, label);
    } else if p >= epi {
        assert(code[p] == epilogue_code()[p - epi]);
        lemma_frame_labels(p - epi, label);
    } else {
        let i = lemma_locate(ops, helpers, addresses, ops.len(), p);
        law_op_placed(ops, helpers, addresses, i);
        let k = p - op_start(ops, helpers, addresses, i);
        assert(op_code(ops[i as int], i as usize, helpers, addresses[i as int])[k] == code[p]);
        lemma_block_labels(
            ops[i as int],
            i as usize,
            helpers,
            addresses[i as int],
            k,
            label,
        );
    }
}

/// A label that the code of a chunk defines is found at its home.
pub proof fn law_label_found(
    ops: Seq<Op>,
    helpers: HelperTable,
    addresses: Seq<u64>,
    label: Label,
)
    requires
        ops.len() <= usize::MAX,
        label_defined(ops, label),
    ensures
        label_index(chunk_code(ops, helpers, addresses), label) == label_home(
            ops,
            helpers,
            addresses,
            label,
        ),
        0 <= label_home(ops, helpers, addresses, label) < chunk_code(ops, helpers, addresses).len(),
        chunk_code(ops, helpers, addresses)[label_home(ops, helpers, addresses, label)]
            == Instruction::Label(label),
{
    let code = chunk_code(ops, helpers, addresses);
    let home = label_home(ops, helpers, addresses, label);
    law_epilogue_placed(ops, helpers, addresses);
    match label {
        Label::Op(i) => {
            law_op_placed(ops, helpers, addresses, i as nat);
            let block = op_code(ops[i as int], i, helpers, addresses[i as int]);
            assert(block[0] == code[home]);
        },
        Label::JifCont(i) => {
            law_op_placed(ops, helpers, addresses, i as nat);
            let block = op_code(ops[i as int], i, helpers, addresses[i as int]);
            assert(block[block.len() - 1] == code[home]);
        },
        Label::Epilogue => {
            assert(epilogue_code()[0] == code[home]);
        },
    }
    assert(code[home] == Instruction::Label(label));
    law_labels_unique(ops, helpers, addresses, label_index(code, label), label);
}

/// The label that an instruction jumps to.
pub open spec fn jump_target(instruction: Instruction) -> Option<Label> {
    match instruction {
        Instruction::JmpLabel(l) => Some(l),
        Instruction::JeLabel(l) => Some(l),
        Instruction::JneLabel(l) => Some(l),
        _ => None,
    }
}

/// Whether every jump of the bytecode leads to an operation.
pub open spec fn jumps_in_range(ops: Seq<Op>) -> bool {
    forall|i: int|
        0 <= i < ops.len() ==> match #[trigger] ops[i] {
            Op::Jump(target) => target < ops.len(),
            Op::JumpIfFalse(target) => target < ops.len(),
            _ => true,
        }
}

/// The labels that the code of an operation jumps to.
proof fn lemma_block_jumps(op: Op, i: usize, helpers: HelperTable, address: u64, k: int)
    requires
        0 <= k < op_code(op, i, helpers, address).len(),
    ensures
        jump_target(op_code(op, i, helpers, address)[k]) matches Some(label) ==> {
            ||| label == Label::Epilogue
            ||| op == Op::Jump(label->Op_0) && label is Op
            ||| op == Op::JumpIfFalse(label->Op_0) && label is Op
            ||| inner_label(op, i) == Some(label)
        },
{
    if k > 0 {
        assert(op_body_code(op, i, helpers, address)[k - 1] == op_code(op, i, helpers, address)[k]);
    }
}

/// Where every jump of the bytecode leads to an operation, every label that the
/// code of the chunk jumps to is defined in it.
pub proof fn law_jumps_resolved(
    ops: Seq<Op>,
    helpers: HelperTable,
    addresses: Seq<u64>,
    p: int,
)
    requires
        ops.len() <= usize::MAX,
        jumps_in_range(ops),
        0 <= p < chunk_code(ops, helpers, addresses).len(),
    ensures
        jump_target(chunk_code(ops, helpers, addresses)[p]) matches Some(label) ==> label_defined(
            ops,
            label,
        ),
{
    let code = chunk_code(ops, helpers, addresses);
    law_epilogue_placed(ops, helpers, addresses);
    let epi = op_start(ops, helpers, addresses, ops.len());
    if p < prologue_code().len() {
        assert(code[p] == prologue_code()[p]);
        assert(jump_target(prologue_code()[p]) is None);
    } else if p >= epi {
        assert(code[p] == epilogue_code()[p - epi]);
        assert(jump_target(epilogue_code()[p - epi]) is None);
    } else {
        let i = lemma_locate(ops, helpers, addresses, ops.len(), p);
        law_op_placed(ops, helpers, addresses, i);
        let k = p - op_start(ops, helpers, addresses, i);
        assert(op_code(ops[i as int], i as usize, helpers, addresses[i as int])[k] == code[p]);
        lemma_block_jumps(ops[i as int], i as usize, helpers, addresses[i as int], k);
    }
}

} // verus!
