//! Bytecode: opcodes, their operand layouts, encoding and decoding.
use vstd::prelude::*;
use crate::text::{i64_to_string, usize_to_string, int_str, nat_str};

verus! {

/// A sequence of encoded instructions.
#[derive(Debug)]
pub struct Instructions(pub Vec<u8>);

#[derive(PartialEq, Eq, Structural, Clone, Copy, Debug)]
pub enum Opcode {
    OpConstant,
    OpAdd,
    OpPop,
    OpSub,
    OpMul,
    OpDiv,
    OpTrue,
    OpFalse,
    OpEqual,
    OpNotEqual,
    OpGreaterThan,
    OpMinus,
    OpBang,
    OpJumpNotTruthy,
    OpJump,
    OpNull,
    OpGetGlobal,
    OpSetGlobal,
    OpArray,
    OpHash,
    OpIndex,
    OpCall,
    OpReturnValue,
    OpReturn,
    OpGetLocal,
    OpSetLocal,
    OpGetBuiltin,
    OpClosure,
    OpGetFree,
}

/// The name of an opcode and the byte widths of its operands.
pub struct Definition {
    pub name: &'static str,
    pub operand_widths: Vec<usize>,
}

/// The byte that encodes an opcode.
pub open spec fn spec_op_byte(op: Opcode) -> u8 {
    match op {
        Opcode::OpConstant => 0,
        Opcode::OpAdd => 1,
        Opcode::OpPop => 2,
        Opcode::OpSub => 3,
        Opcode::OpMul => 4,
        Opcode::OpDiv => 5,
        Opcode::OpTrue => 6,
        Opcode::OpFalse => 7,
        Opcode::OpEqual => 8,
        Opcode::OpNotEqual => 9,
        Opcode::OpGreaterThan => 10,
        Opcode::OpMinus => 11,
        Opcode::OpBang => 12,
        Opcode::OpJumpNotTruthy => 13,
        Opcode::OpJump => 14,
        Opcode::OpNull => 15,
        Opcode::OpGetGlobal => 16,
        Opcode::OpSetGlobal => 17,
        Opcode::OpArray => 18,
        Opcode::OpHash => 19,
        Opcode::OpIndex => 20,
        Opcode::OpCall => 21,
        Opcode::OpReturnValue => 22,
        Opcode::OpReturn => 23,
        Opcode::OpGetLocal => 24,
        Opcode::OpSetLocal => 25,
        Opcode::OpGetBuiltin => 26,
        Opcode::OpClosure => 27,
        Opcode::OpGetFree => 28,
    }
}

/// The opcode a byte encodes, if any.
pub open spec fn spec_op_from_byte(b: u8) -> Option<Opcode> {
    if b == 0 { Some(Opcode::OpConstant) }
    else if b == 1 { Some(Opcode::OpAdd) }
    else if b == 2 { Some(Opcode::OpPop) }
    else if b == 3 { Some(Opcode::OpSub) }
    else if b == 4 { Some(Opcode::OpMul) }
    else if b == 5 { Some(Opcode::OpDiv) }
    else if b == 6 { Some(Opcode::OpTrue) }
    else if b == 7 { Some(Opcode::OpFalse) }
    else if b == 8 { Some(Opcode::OpEqual) }
    else if b == 9 { Some(Opcode::OpNotEqual) }
    else if b == 10 { Some(Opcode::OpGreaterThan) }
    else if b == 11 { Some(Opcode::OpMinus) }
    else if b == 12 { Some(Opcode::OpBang) }
    else if b == 13 { Some(Opcode::OpJumpNotTruthy) }
    else if b == 14 { Some(Opcode::OpJump) }
    else if b == 15 { Some(Opcode::OpNull) }
    else if b == 16 { Some(Opcode::OpGetGlobal) }
    else if b == 17 { Some(Opcode::OpSetGlobal) }
    else if b == 18 { Some(Opcode::OpArray) }
    else if b == 19 { Some(Opcode::OpHash) }
    else if b == 20 { Some(Opcode::OpIndex) }
    else if b == 21 { Some(Opcode::OpCall) }
    else if b == 22 { Some(Opcode::OpReturnValue) }
    else if b == 23 { Some(Opcode::OpReturn) }
    else if b == 24 { Some(Opcode::OpGetLocal) }
    else if b == 25 { Some(Opcode::OpSetLocal) }
    else if b == 26 { Some(Opcode::OpGetBuiltin) }
    else if b == 27 { Some(Opcode::OpClosure) }
    else if b == 28 { Some(Opcode::OpGetFree) }
    else { None }
}

/// The byte widths of an opcode's operands.
pub open spec fn spec_op_widths(op: Opcode) -> Seq<usize> {
    match op {
        Opcode::OpConstant | Opcode::OpJumpNotTruthy | Opcode::OpJump | Opcode::OpGetGlobal
        | Opcode::OpSetGlobal | Opcode::OpArray | Opcode::OpHash => seq![2usize],
        Opcode::OpCall | Opcode::OpGetLocal | Opcode::OpSetLocal | Opcode::OpGetBuiltin
        | Opcode::OpGetFree => seq![1usize],
        Opcode::OpClosure => seq![2usize, 1usize],
        _ => Seq::empty(),
    }
}

/// The name of an opcode.
pub open spec fn spec_op_name(op: Opcode) -> Seq<char> {
    match op {
        Opcode::OpConstant => "OpConstant"@,
        Opcode::OpAdd => "OpAdd"@,
        Opcode::OpPop => "OpPop"@,
        Opcode::OpSub => "OpSub"@,
        Opcode::OpMul => "OpMul"@,
        Opcode::OpDiv => "OpDiv"@,
        Opcode::OpTrue => "OpTrue"@,
        Opcode::OpFalse => "OpFalse"@,
        Opcode::OpEqual => "OpEqual"@,
        Opcode::OpNotEqual => "OpNotEqual"@,
        Opcode::OpGreaterThan => "OpGreaterThan"@,
        Opcode::OpMinus => "OpMinus"@,
        Opcode::OpBang => "OpBang"@,
        Opcode::OpJumpNotTruthy => "OpJumpNotTruthy"@,
        Opcode::OpJump => "OpJump"@,
        Opcode::OpNull => "OpNull"@,
        Opcode::OpGetGlobal => "OpGetGlobal"@,
        Opcode::OpSetGlobal => "OpSetGlobal"@,
        Opcode::OpArray => "OpArray"@,
        Opcode::OpHash => "OpHash"@,
        Opcode::OpIndex => "OpIndex"@,
        Opcode::OpCall => "OpCall"@,
        Opcode::OpReturnValue => "OpReturnValue"@,
        Opcode::OpReturn => "OpReturn"@,
        Opcode::OpGetLocal => "OpGetLocal"@,
        Opcode::OpSetLocal => "OpSetLocal"@,
        Opcode::OpGetBuiltin => "OpGetBuiltin"@,
        Opcode::OpClosure => "OpClosure"@,
        Opcode::OpGetFree => "OpGetFree"@,
    }
}

/// Every opcode is encoded by a byte that decodes back to it.
pub proof fn lemma_op_byte_roundtrip(op: Opcode)
    ensures
        spec_op_from_byte(spec_op_byte(op)) == Some(op),
{
}

/// A byte that decodes to an opcode is that opcode's byte.
pub proof fn lemma_op_from_byte_roundtrip(b: u8)
    ensures
        spec_op_from_byte(b) matches Some(op) ==> spec_op_byte(op) == b,
{
}

impl Opcode {
    /// The byte that encodes this opcode.
    pub fn to_byte(self) -> (b: u8)
        ensures
            b == spec_op_byte(self),
    {
        match self {
            Opcode::OpConstant => 0,
            Opcode::OpAdd => 1,
            Opcode::OpPop => 2,
            Opcode::OpSub => 3,
            Opcode::OpMul => 4,
            Opcode::OpDiv => 5,
            Opcode::OpTrue => 6,
            Opcode::OpFalse => 7,
            Opcode::OpEqual => 8,
            Opcode::OpNotEqual => 9,
            Opcode::OpGreaterThan => 10,
            Opcode::OpMinus => 11,
            Opcode::OpBang => 12,
            Opcode::OpJumpNotTruthy => 13,
            Opcode::OpJump => 14,
            Opcode::OpNull => 15,
            Opcode::OpGetGlobal => 16,
            Opcode::OpSetGlobal => 17,
            Opcode::OpArray => 18,
            Opcode::OpHash => 19,
            Opcode::OpIndex => 20,
            Opcode::OpCall => 21,
            Opcode::OpReturnValue => 22,
            Opcode::OpReturn => 23,
            Opcode::OpGetLocal => 24,
            Opcode::OpSetLocal => 25,
            Opcode::OpGetBuiltin => 26,
            Opcode::OpClosure => 27,
            Opcode::OpGetFree => 28,
        }
    }

    /// The opcode a byte encodes, if any.
    pub fn from_byte(b: u8) -> (r: Option<Opcode>)
        ensures
            r == spec_op_from_byte(b),
    {
        if b == 0 { Some(Opcode::OpConstant) }
        else if b == 1 { Some(Opcode::OpAdd) }
        else if b == 2 { Some(Opcode::OpPop) }
        else if b == 3 { Some(Opcode::OpSub) }
        else if b == 4 { Some(Opcode::OpMul) }
        else if b == 5 { Some(Opcode::OpDiv) }
        else if b == 6 { Some(Opcode::OpTrue) }
        else if b == 7 { Some(Opcode::OpFalse) }
        else if b == 8 { Some(Opcode::OpEqual) }
        else if b == 9 { Some(Opcode::OpNotEqual) }
        else if b == 10 { Some(Opcode::OpGreaterThan) }
        else if b == 11 { Some(Opcode::OpMinus) }
        else if b == 12 { Some(Opcode::OpBang) }
        else if b == 13 { Some(Opcode::OpJumpNotTruthy) }
        else if b == 14 { Some(Opcode::OpJump) }
        else if b == 15 { Some(Opcode::OpNull) }
        else if b == 16 { Some(Opcode::OpGetGlobal) }
        else if b == 17 { Some(Opcode::OpSetGlobal) }
        else if b == 18 { Some(Opcode::OpArray) }
        else if b == 19 { Some(Opcode::OpHash) }
        else if b == 20 { Some(Opcode::OpIndex) }
        else if b == 21 { Some(Opcode::OpCall) }
        else if b == 22 { Some(Opcode::OpReturnValue) }
        else if b == 23 { Some(Opcode::OpReturn) }
        else if b == 24 { Some(Opcode::OpGetLocal) }
        else if b == 25 { Some(Opcode::OpSetLocal) }
        else if b == 26 { Some(Opcode::OpGetBuiltin) }
        else if b == 27 { Some(Opcode::OpClosure) }
        else if b == 28 { Some(Opcode::OpGetFree) }
        else { None }
    }

    /// The name of this opcode.
    pub fn name(self) -> (s: &'static str)
        ensures
            s@ == spec_op_name(self),
    {
        match self {
            Opcode::OpConstant => "OpConstant",
            Opcode::OpAdd => "OpAdd",
            Opcode::OpPop => "OpPop",
            Opcode::OpSub => "OpSub",
            Opcode::OpMul => "OpMul",
            Opcode::OpDiv => "OpDiv",
            Opcode::OpTrue => "OpTrue",
            Opcode::OpFalse => "OpFalse",
            Opcode::OpEqual => "OpEqual",
            Opcode::OpNotEqual => "OpNotEqual",
            Opcode::OpGreaterThan => "OpGreaterThan",
            Opcode::OpMinus => "OpMinus",
            Opcode::OpBang => "OpBang",
            Opcode::OpJumpNotTruthy => "OpJumpNotTruthy",
            Opcode::OpJump => "OpJump",
            Opcode::OpNull => "OpNull",
            Opcode::OpGetGlobal => "OpGetGlobal",
            Opcode::OpSetGlobal => "OpSetGlobal",
            Opcode::OpArray => "OpArray",
            Opcode::OpHash => "OpHash",
            Opcode::OpIndex => "OpIndex",
            Opcode::OpCall => "OpCall",
            Opcode::OpReturnValue => "OpReturnValue",
            Opcode::OpReturn => "OpReturn",
            Opcode::OpGetLocal => "OpGetLocal",
            Opcode::OpSetLocal => "OpSetLocal",
            Opcode::OpGetBuiltin => "OpGetBuiltin",
            Opcode::OpClosure => "OpClosure",
            Opcode::OpGetFree => "OpGetFree",
        }
    }
}

/// The definition of an opcode: its name and operand widths.
pub fn definition(op: Opcode) -> (d: Definition)
    ensures
        d.name@ == spec_op_name(op),
        d.operand_widths@ == spec_op_widths(op),
{
    let operand_widths: Vec<usize> = match op {
        Opcode::OpConstant | Opcode::OpJumpNotTruthy | Opcode::OpJump | Opcode::OpGetGlobal
        | Opcode::OpSetGlobal | Opcode::OpArray | Opcode::OpHash => vec![2usize],
        Opcode::OpCall | Opcode::OpGetLocal | Opcode::OpSetLocal | Opcode::OpGetBuiltin
        | Opcode::OpGetFree => vec![1usize],
        Opcode::OpClosure => vec![2usize, 1usize],
        _ => Vec::new(),
    };
    assert(operand_widths@ =~= spec_op_widths(op));
    Definition { name: op.name(), operand_widths }
}

/// The definition of the opcode a byte encodes, or an error naming the byte.
pub fn lookup(op: u8) -> (r: Result<Definition, String>)
    ensures
        match r {
            Ok(d) => spec_op_from_byte(op) matches Some(o) && d.name@ == spec_op_name(o)
                && d.operand_widths@ == spec_op_widths(o),
            Err(msg) => spec_op_from_byte(op) is None && msg@ == "opcode "@ + nat_str(op as nat)
                + " undefined"@,
        },
{
    match Opcode::from_byte(op) {
        Some(o) => Ok(definition(o)),
        None => {
            let mut msg = String::from_str("opcode ");
            let n = u64_to_string_u8(op);
            msg.append(n.as_str());
            msg.append(" undefined");
            proof {
                reveal_strlit("opcode ");
                reveal_strlit(" undefined");
            }
            Err(msg)
        },
    }
}

fn u64_to_string_u8(b: u8) -> (s: String)
    ensures
        s@ == nat_str(b as nat),
{
    usize_to_string(b as usize)
}

/// The sum of the widths.
pub open spec fn sum_widths(ws: Seq<usize>) -> nat
    decreases ws.len(),
{
    if ws.len() == 0 { 0 } else { ws[0] as nat + sum_widths(ws.drop_first()) }
}

/// The bytes of one operand of the given width; no operand gives zero bytes.
pub open spec fn encode_operand(w: usize, o: Option<i64>) -> Seq<u8> {
    match o {
        Some(v) => if w == 2 {
            seq![((v as u16) / 256) as u8, ((v as u16) % 256) as u8]
        } else if w == 1 {
            seq![v as u8]
        } else {
            Seq::new(w as nat, |i: int| 0u8)
        },
        None => Seq::new(w as nat, |i: int| 0u8),
    }
}

/// The operand bytes for the widths, taking operands in order while they last.
pub open spec fn encode_operands(ws: Seq<usize>, ops: Seq<i64>) -> Seq<u8>
    decreases ws.len(),
{
    if ws.len() == 0 {
        Seq::empty()
    } else {
        encode_operand(ws[0], if ops.len() > 0 { Some(ops[0]) } else { None }) + encode_operands(
            ws.drop_first(),
            if ops.len() > 0 { ops.drop_first() } else { ops },
        )
    }
}

/// The encoding of one instruction.
pub open spec fn spec_make(op: Opcode, operands: Seq<i64>) -> Seq<u8> {
    seq![spec_op_byte(op)] + encode_operands(spec_op_widths(op), operands)
}

/// The value an operand of the given width holds at the start of `bytes`.
pub open spec fn decode_operand(w: usize, bytes: Seq<u8>) -> i64 {
    if w == 2 {
        (bytes[0] as int * 256 + bytes[1] as int) as i64
    } else if w == 1 {
        bytes[0] as i64
    } else {
        0
    }
}

/// The operands of the given widths at the start of `bytes`.
pub open spec fn decode_operands(ws: Seq<usize>, bytes: Seq<u8>) -> Seq<i64>
    decreases ws.len(),
{
    if ws.len() == 0 {
        Seq::empty()
    } else {
        seq![decode_operand(ws[0], bytes)] + decode_operands(ws.drop_first(), bytes.skip(ws[0] as int))
    }
}

pub proof fn lemma_sum_widths_small(ws: Seq<usize>)
    requires
        forall|i: int| 0 <= i < ws.len() ==> #[trigger] ws[i] <= 2,
    ensures
        0 <= sum_widths(ws) <= 2 * ws.len(),
    decreases ws.len(),
{
    if ws.len() > 0 {
        lemma_sum_widths_small(ws.drop_first());
    }
}

pub proof fn lemma_encode_operands_len(ws: Seq<usize>, ops: Seq<i64>)
    ensures
        encode_operands(ws, ops).len() == sum_widths(ws),
    decreases ws.len(),
{
    if ws.len() > 0 {
        lemma_encode_operands_len(
            ws.drop_first(),
            if ops.len() > 0 { ops.drop_first() } else { ops },
        );
    }
}

/// Encodes one instruction: the opcode's byte followed by its operands,
/// two-byte operands big-endian.  Missing operands are encoded as zero.
pub fn make(op: Opcode, operands: &Vec<i64>) -> (ins: Instructions)
    requires
        operands@.len() <= spec_op_widths(op).len(),
    ensures
        ins.0@ == spec_make(op, operands@),
{
    let def = definition(op);
    let mut bytes: Vec<u8> = Vec::new();
    bytes.push(op.to_byte());
    let mut i: usize = 0;
    let ghost ws = def.operand_widths@;
    assert(ws.skip(0) =~= ws);
    assert(operands@.skip(0) =~= operands@);
    if operands.len() == 0 {
        assert(operands@ =~= Seq::<i64>::empty());
    }
    assert(bytes@ =~= seq![spec_op_byte(op)]);
    while i < def.operand_widths.len()
        invariant
            ws == def.operand_widths@,
            ws == spec_op_widths(op),
            operands@.len() <= ws.len(),
            i <= ws.len(),
            bytes@ + encode_operands(
                ws.skip(i as int),
                if i < operands@.len() { operands@.skip(i as int) } else { Seq::empty() },
            ) == spec_make(op, operands@),
        decreases ws.len() - i,
    {
        let w = def.operand_widths[i];
        let ghost before = bytes@;
        let ghost rest_ops = if i < operands@.len() { operands@.skip(i as int) } else { Seq::<i64>::empty() };
        let ghost next_ops = if i + 1 < operands@.len() { operands@.skip(i + 1) } else { Seq::<i64>::empty() };
        assert(ws.skip(i as int).drop_first() =~= ws.skip(i + 1));
        if i < operands.len() {
            assert(rest_ops.drop_first() =~= next_ops);
        } else {
            assert(next_ops =~= rest_ops);
        }
        if i < operands.len() {
            let o = operands[i];
            if w == 2 {
                let two = #[verifier::truncate] (o as u16);
                bytes.push((two / 256) as u8);
                bytes.push((two % 256) as u8);
            } else if w == 1 {
                bytes.push(#[verifier::truncate] (o as u8));
            } else {
                let mut k: usize = 0;
                while k < w
                    invariant
                        k <= w,
                        bytes@ == before + Seq::new(k as nat, |j: int| 0u8),
                    decreases w - k,
                {
                    bytes.push(0);
                    k = k + 1;
                    assert(bytes@ =~= before + Seq::new(k as nat, |j: int| 0u8));
                }
            }
        } else {
            let mut k: usize = 0;
            while k < w
                invariant
                    k <= w,
                    bytes@ == before + Seq::new(k as nat, |j: int| 0u8),
                decreases w - k,
            {
                bytes.push(0);
                k = k + 1;
                assert(bytes@ =~= before + Seq::new(k as nat, |j: int| 0u8));
            }
        }
        assert(bytes@ =~= before + encode_operand(
            w,
            if rest_ops.len() > 0 { Some(rest_ops[0]) } else { None },
        ));
        assert(bytes@ + encode_operands(ws.skip(i + 1), next_ops) =~= before + encode_operands(
            ws.skip(i as int),
            rest_ops,
        ));
        i = i + 1;
    }
    assert(ws.skip(0) =~= ws);
    assert(operands@.skip(0) =~= operands@);
    Instructions(bytes)
}

/// Reads a big-endian `u16`.
pub fn read_u16(ins: [u8; 2]) -> (v: u16)
    ensures
        v as int == ins@[0] as int * 256 + ins@[1] as int,
{
    (ins[0] as u16) * 256 + (ins[1] as u16)
}

/// Decodes the operands that follow an opcode: the operands, and the number
/// of bytes they take.
pub fn read_operands(def: &Definition, ins: &[u8]) -> (r: (Vec<i64>, usize))
    requires
        forall|i: int| 0 <= i < def.operand_widths@.len() ==> #[trigger] def.operand_widths@[i] <= 2,
        ins@.len() >= sum_widths(def.operand_widths@),
    ensures
        r.0@ == decode_operands(def.operand_widths@, ins@),
        r.1 == sum_widths(def.operand_widths@),
{
    let ghost ws = def.operand_widths@;
    let mut operands: Vec<i64> = Vec::new();
    let mut offset: usize = 0;
    let mut i: usize = 0;
    proof {
        lemma_sum_widths_small(ws);
    }
    assert(ws.skip(0) =~= ws);
    assert(ins@.skip(0) =~= ins@);
    while i < def.operand_widths.len()
        invariant
            ws == def.operand_widths@,
            forall|k: int| 0 <= k < ws.len() ==> #[trigger] ws[k] <= 2,
            ins@.len() >= sum_widths(ws),
            i <= ws.len(),
            offset as int + sum_widths(ws.skip(i as int)) == sum_widths(ws),
            operands@ + decode_operands(ws.skip(i as int), ins@.skip(offset as int))
                == decode_operands(ws, ins@),
        decreases ws.len() - i,
    {
        let w = def.operand_widths[i];
        assert(ws.skip(i as int).drop_first() =~= ws.skip(i + 1));
        proof {
            lemma_sum_widths_small(ws.skip(i + 1));
        }
        assert(ins@.skip(offset as int).skip(w as int) =~= ins@.skip(offset + w));
        let v: i64 = if w == 2 {
            let arr: [u8; 2] = [ins[offset], ins[offset + 1]];
            read_u16(arr) as i64
        } else if w == 1 {
            ins[offset] as i64
        } else {
            0
        };
        let ghost before = operands@;
        operands.push(v);
        assert(operands@ + decode_operands(ws.skip(i + 1), ins@.skip(offset + w)) =~= before
            + decode_operands(ws.skip(i as int), ins@.skip(offset as int)));
        offset = offset + w;
        i = i + 1;
    }
    assert(ws.skip(i as int) =~= Seq::<usize>::empty());
    (operands, offset)
}

/// Decoding what `make` encoded gives back the operands, and reads exactly
/// the operand bytes, for operands that fit their widths.
pub proof fn lemma_read_operands_make(op: Opcode, operands: Seq<i64>)
    requires
        operands.len() == spec_op_widths(op).len(),
        forall|i: int| 0 <= i < operands.len() ==> 0 <= #[trigger] operands[i] < if spec_op_widths(
            op,
        )[i] == 2 {
            65536int
        } else {
            256int
        },
    ensures
        decode_operands(spec_op_widths(op), spec_make(op, operands).drop_first()) == operands,
        spec_make(op, operands).len() == 1 + sum_widths(spec_op_widths(op)),
{
    let ws = spec_op_widths(op);
    let ins = spec_make(op, operands);
    let e = encode_operands(ws, operands);
    assert(ins.drop_first() =~= e);
    lemma_encode_operands_len(ws, operands);
    let empty_w = Seq::<usize>::empty();
    let empty_o = Seq::<i64>::empty();
    assert(encode_operands(empty_w, empty_o) =~= Seq::<u8>::empty());
    assert(decode_operands(empty_w, Seq::<u8>::empty()) =~= Seq::<i64>::empty());
    if ws.len() == 1 {
        assert(ws.drop_first() =~= empty_w);
        assert(operands.drop_first() =~= empty_o);
        let o = operands[0];
        assert(e =~= encode_operand(ws[0], Some(o)));
        assert(decode_operands(empty_w, e.skip(ws[0] as int)) =~= empty_o);
        if ws[0] == 2 {
            let t = o as u16;
            assert(t as int == o);
            assert(decode_operand(2, e) == o);
        } else {
            assert(decode_operand(1, e) == o);
        }
        assert(decode_operands(ws, e) =~= operands);
    } else if ws.len() == 2 {
        let o0 = operands[0];
        let o1 = operands[1];
        let ws1 = ws.drop_first();
        let ops1 = operands.drop_first();
        assert(ws1 =~= seq![1usize]);
        assert(ops1 =~= seq![o1]);
        assert(ws1.drop_first() =~= empty_w);
        assert(ops1.drop_first() =~= empty_o);
        assert(encode_operands(ws1, ops1) =~= seq![o1 as u8]);
        let t = o0 as u16;
        assert(t as int == o0);
        assert(e =~= seq![(t / 256) as u8, (t % 256) as u8, o1 as u8]);
        assert(decode_operand(2, e) == o0);
        assert(e.skip(2) =~= seq![o1 as u8]);
        assert(decode_operand(1, e.skip(2)) == o1);
        assert(decode_operands(empty_w, e.skip(2).skip(1)) =~= empty_o);
        assert(decode_operands(ws1, e.skip(2)) =~= seq![o1]);
        assert(decode_operands(ws, e) =~= operands);
    } else {
        assert(ws =~= empty_w);
        assert(decode_operands(ws, e) =~= operands);
    }
}

} // verus!

verus! {

/// The instructions from position `i` on are complete: each starts with a
/// defined opcode and has all its operand bytes.
pub open spec fn wf_instructions_from(bytes: Seq<u8>, i: int) -> bool
    decreases bytes.len() - i,
{
    if i < 0 || i > bytes.len() {
        false
    } else if i == bytes.len() {
        true
    } else {
        match spec_op_from_byte(bytes[i]) {
            Some(op) => i + 1 + sum_widths(spec_op_widths(op)) <= bytes.len() && wf_instructions_from(
                bytes,
                i + 1 + sum_widths(spec_op_widths(op)),
            ),
            None => false,
        }
    }
}

pub open spec fn wf_instructions(bytes: Seq<u8>) -> bool {
    wf_instructions_from(bytes, 0)
}

/// A number rendered with at least four digits, zero padded.
pub open spec fn pad4(n: nat) -> Seq<char> {
    let s = nat_str(n);
    if s.len() < 4 { Seq::new((4 - s.len()) as nat, |i: int| '0') + s } else { s }
}

/// An instruction's name followed by its operands.
pub open spec fn spec_fmt_instruction(name: Seq<char>, widths: Seq<usize>, operands: Seq<i64>) -> Seq<char> {
    if operands.len() != widths.len() {
        "ERROR: operand len "@ + nat_str(operands.len()) + " does not match defined "@ + nat_str(
            widths.len(),
        ) + "\n"@
    } else if widths.len() == 0 {
        name
    } else if widths.len() == 1 {
        name + " "@ + int_str(operands[0] as int)
    } else if widths.len() == 2 {
        name + " "@ + int_str(operands[0] as int) + " "@ + int_str(operands[1] as int)
    } else {
        "ERROR: unhandled operand_count for "@ + name + "\n"@
    }
}

/// The listing of the instructions from position `i` on: one line per
/// instruction, holding its offset, name and operands.
pub open spec fn instructions_str(bytes: Seq<u8>, i: int) -> Seq<char>
    decreases bytes.len() - i,
{
    if i < 0 || i >= bytes.len() {
        Seq::empty()
    } else {
        match spec_op_from_byte(bytes[i]) {
            Some(op) => {
                let ws = spec_op_widths(op);
                pad4(i as nat) + " "@ + spec_fmt_instruction(
                    spec_op_name(op),
                    ws,
                    decode_operands(ws, bytes.skip(i + 1)),
                ) + "\n"@ + if i + 1 + sum_widths(ws) <= bytes.len() {
                    instructions_str(bytes, i + 1 + sum_widths(ws))
                } else {
                    Seq::empty()
                }
            },
            None => Seq::empty(),
        }
    }
}

pub proof fn lemma_op_widths_small(op: Opcode)
    ensures
        forall|i: int| 0 <= i < spec_op_widths(op).len() ==> #[trigger] spec_op_widths(op)[i] <= 2,
        spec_op_widths(op).len() <= 2,
        0 <= sum_widths(spec_op_widths(op)) <= 3,
{
    let ws = spec_op_widths(op);
    assert(sum_widths(Seq::<usize>::empty()) == 0);
    if ws.len() == 2 {
        assert(ws.drop_first().drop_first() =~= Seq::<usize>::empty());
        assert(sum_widths(ws.drop_first()) == ws[1] as nat);
    } else if ws.len() == 1 {
        assert(ws.drop_first() =~= Seq::<usize>::empty());
    }
}

pub proof fn lemma_decode_operands_len(ws: Seq<usize>, bytes: Seq<u8>)
    ensures
        decode_operands(ws, bytes).len() == ws.len(),
    decreases ws.len(),
{
    if ws.len() > 0 {
        lemma_decode_operands_len(ws.drop_first(), bytes.skip(ws[0] as int));
    }
}

fn pad4_string(n: usize) -> (s: String)
    ensures
        s@ == pad4(n as nat),
{
    let digits = usize_to_string(n);
    let len = digits.as_str().unicode_len();
    let mut s = String::new();
    let mut k: usize = len;
    while k < 4
        invariant
            len == nat_str(n as nat).len(),
            len <= k <= 4 || (len > 4 && k == len),
            s@ == Seq::new((k - len) as nat, |i: int| '0'),
        decreases 4 - k,
    {
        s.append("0");
        proof {
            reveal_strlit("0");
        }
        k = k + 1;
        assert(s@ =~= Seq::new((k - len) as nat, |i: int| '0'));
    }
    s.append(digits.as_str());
    proof {
        if len >= 4 {
            assert(s@ =~= nat_str(n as nat));
        } else {
            assert(s@ =~= Seq::new((4 - len) as nat, |i: int| '0') + nat_str(n as nat));
        }
    }
    s
}

impl Instructions {
    /// No instructions.
    pub fn new() -> (r: Instructions)
        ensures
            r.0@ == Seq::<u8>::empty(),
    {
        Instructions(Vec::new())
    }

    /// Overwrites the two bytes at `offset` with `value`, big-endian.
    pub fn put_be_u16(&mut self, offset: usize, value: u16)
        requires
            offset + 2 <= old(self).0@.len(),
        ensures
            final(self).0@ == old(self).0@.update(offset as int, (value / 256) as u8).update(
                offset + 1,
                (value % 256) as u8,
            ),
    {
        let n = self.0.len();
        assert(offset + 2 <= n);
        self.0.set(offset, (value / 256) as u8);
        self.0.set(offset + 1, (value % 256) as u8);
    }

    /// A listing of the instructions, one per line: the offset (four digits),
    /// the opcode's name and the operands.
    pub fn string(&self) -> (s: String)
        requires
            wf_instructions(self.0@),
        ensures
            s@ == instructions_str(self.0@, 0),
    {
        let mut out = String::new();
        let mut i: usize = 0;
        while i < self.0.len()
            invariant
                i <= self.0@.len(),
                wf_instructions_from(self.0@, i as int),
                out@ + instructions_str(self.0@, i as int) == instructions_str(self.0@, 0),
            decreases self.0@.len() - i,
        {
            let op = Opcode::from_byte(self.0[i]).unwrap();
            let def = definition(op);
            proof {
                lemma_op_widths_small(op);
            }
            let (operands, read) = read_operands(&def, &self.0.as_slice()[i + 1..self.0.len()]);
            let ghost before = out@;
            let line = pad4_string(i);
            out.append(line.as_str());
            out.append(" ");
            let f = self.fmt_instruction(&def, operands);
            out.append(f.as_str());
            out.append("\n");
            assert(self.0@.subrange(i + 1, self.0@.len() as int) =~= self.0@.skip(i + 1));
            assert(out@ + instructions_str(self.0@, i + 1 + read) =~= before + instructions_str(
                self.0@,
                i as int,
            ));
            i = i + 1 + read;
        }
        out
    }

    /// An instruction's name followed by its operands, or an error message
    /// when the operands do not match the definition.
    pub fn fmt_instruction(&self, def: &Definition, operands: Vec<i64>) -> (s: String)
        ensures
            s@ == spec_fmt_instruction(def.name@, def.operand_widths@, operands@),
    {
        let operand_count = def.operand_widths.len();
        if operands.len() != operand_count {
            let mut s = String::from_str("ERROR: operand len ");
            let a = usize_to_string(operands.len());
            s.append(a.as_str());
            s.append(" does not match defined ");
            let b = usize_to_string(operand_count);
            s.append(b.as_str());
            s.append("\n");
            return s;
        }
        if operand_count == 0 {
            String::from_str(def.name)
        } else if operand_count == 1 {
            let mut s = String::from_str(def.name);
            s.append(" ");
            let a = i64_to_string(operands[0]);
            s.append(a.as_str());
            s
        } else if operand_count == 2 {
            let mut s = String::from_str(def.name);
            s.append(" ");
            let a = i64_to_string(operands[0]);
            s.append(a.as_str());
            s.append(" ");
            let b = i64_to_string(operands[1]);
            s.append(b.as_str());
            s
        } else {
            let mut s = String::from_str("ERROR: unhandled operand_count for ");
            s.append(def.name);
            s.append("\n");
            s
        }
    }
}

/// One instruction made by `make` is complete.
pub proof fn lemma_make_wf(op: Opcode, operands: Seq<i64>)
    ensures
        wf_instructions(spec_make(op, operands)),
        spec_make(op, operands).len() == 1 + sum_widths(spec_op_widths(op)),
{
    let ins = spec_make(op, operands);
    lemma_encode_operands_len(spec_op_widths(op), operands);
    lemma_op_byte_roundtrip(op);
    assert(ins[0] == spec_op_byte(op));
    lemma_op_widths_small(op);
    assert(wf_instructions_from(ins, ins.len() as int));
}


// ---------------------------------------------------------------------------
// Instruction boundaries.

/// The length of the instruction whose opcode is `op`.
pub open spec fn op_len(op: Opcode) -> nat {
    1 + sum_widths(spec_op_widths(op))
}

/// Decoding instruction after instruction from position `i` arrives at
/// position `p`.
pub open spec fn reaches(bytes: Seq<u8>, i: int, p: int) -> bool
    decreases p - i,
{
    if i < 0 || i > p || p > bytes.len() {
        false
    } else if i == p {
        true
    } else {
        match spec_op_from_byte(bytes[i]) {
            Some(op) => i + op_len(op) <= p && reaches(bytes, i + op_len(op), p),
            None => false,
        }
    }
}

/// `p` is where an instruction of `bytes` starts (or the end).
pub open spec fn is_boundary(bytes: Seq<u8>, p: int) -> bool {
    reaches(bytes, 0, p)
}

/// Whether the instructions from `j` on are complete depends only on the
/// bytes from `j` on.
pub proof fn lemma_wf_from_suffix(a: Seq<u8>, b: Seq<u8>, j: int)
    requires
        0 <= j <= a.len(),
        a.len() == b.len(),
        forall|k: int| j <= k < a.len() ==> a[k] == b[k],
    ensures
        wf_instructions_from(a, j) == wf_instructions_from(b, j),
    decreases a.len() - j,
{
    if j < a.len() {
        match spec_op_from_byte(a[j]) {
            Some(op) => {
                let n = j + 1 + sum_widths(spec_op_widths(op));
                if n <= a.len() {
                    lemma_wf_from_suffix(a, b, n);
                }
            },
            None => {},
        }
    }
}

/// Complete instructions followed by complete instructions are complete.
pub proof fn lemma_wf_append(a: Seq<u8>, b: Seq<u8>, i: int)
    requires
        wf_instructions_from(a, i),
        wf_instructions(b),
    ensures
        wf_instructions_from(a + b, i),
    decreases a.len() - i,
{
    let ab = a + b;
    if i == a.len() {
        lemma_wf_shift(a, b, 0);
    } else {
        let op = spec_op_from_byte(a[i]).unwrap();
        assert(ab[i] == a[i]);
        lemma_wf_append(a, b, i + 1 + sum_widths(spec_op_widths(op)));
    }
}

/// The instructions of `b` stay complete behind any prefix.
pub proof fn lemma_wf_shift(a: Seq<u8>, b: Seq<u8>, j: int)
    requires
        wf_instructions_from(b, j),
    ensures
        wf_instructions_from(a + b, a.len() + j),
    decreases b.len() - j,
{
    let ab = a + b;
    if j < b.len() {
        let op = spec_op_from_byte(b[j]).unwrap();
        assert(ab[a.len() + j] == b[j]);
        lemma_wf_shift(a, b, j + 1 + sum_widths(spec_op_widths(op)));
        assert(a.len() + j + 1 + sum_widths(spec_op_widths(op)) == a.len() + (j + 1 + sum_widths(
            spec_op_widths(op),
        )));
    }
}

/// Cutting the instructions at a boundary leaves complete instructions.
pub proof fn lemma_wf_take(b: Seq<u8>, i: int, q: int)
    requires
        reaches(b, i, q),
    ensures
        wf_instructions_from(b.take(q), i),
    decreases q - i,
{
    let t = b.take(q);
    if i < q {
        let op = spec_op_from_byte(b[i]).unwrap();
        assert(t[i] == b[i]);
        lemma_wf_take(b, i + op_len(op), q);
    }
}

/// On complete instructions, decoding from a boundary arrives at the end.
pub proof fn lemma_wf_reaches_end(b: Seq<u8>, i: int)
    requires
        wf_instructions_from(b, i),
    ensures
        reaches(b, i, b.len() as int),
    decreases b.len() - i,
{
    if i < b.len() {
        let op = spec_op_from_byte(b[i]).unwrap();
        lemma_wf_reaches_end(b, i + op_len(op));
    }
}

/// Boundaries of instructions stay boundaries when more bytes follow.
pub proof fn lemma_reaches_append(a: Seq<u8>, b: Seq<u8>, i: int, p: int)
    requires
        reaches(a, i, p),
    ensures
        reaches(a + b, i, p),
    decreases p - i,
{
    if i < p {
        let op = spec_op_from_byte(a[i]).unwrap();
        assert((a + b)[i] == a[i]);
        lemma_reaches_append(a, b, i + op_len(op), p);
    }
}

/// Replacing the instruction at a boundary by one of the same length keeps
/// the instructions complete.
pub proof fn lemma_wf_replace(b: Seq<u8>, i: int, p: int, ni: Seq<u8>)
    requires
        wf_instructions_from(b, i),
        reaches(b, i, p),
        p < b.len(),
        spec_op_from_byte(b[p]) matches Some(op) && op_len(op) == ni.len(),
        spec_op_from_byte(ni[0]) matches Some(op2) && op_len(op2) == ni.len(),
        ni.len() >= 1,
    ensures
        p + ni.len() <= b.len(),
        wf_instructions_from(b.take(p) + ni + b.skip(p + ni.len()), i),
    decreases p - i,
{
    let n = ni.len() as int;
    let nb = b.take(p) + ni + b.skip(p + n);
    let op = spec_op_from_byte(b[p]).unwrap();
    lemma_reaches_wf_at(b, i, p);
    assert(nb.len() == b.len());
    if i == p {
        assert(nb[p] == ni[0]);
        assert forall|k: int| p + n <= k < b.len() implies nb[k] == b[k] by {
            assert(nb[k] == b.skip(p + n)[k - p - n]);
        }
        lemma_wf_from_suffix(b, nb, p + n);
    } else {
        let op_i = spec_op_from_byte(b[i]).unwrap();
        assert(nb[i] == b[i]);
        lemma_wf_replace(b, i + op_len(op_i), p, ni);
    }
}

/// Two positions reached from `i`, the earlier one reaches the later one.
pub proof fn lemma_reaches_split(b: Seq<u8>, i: int, x: int, y: int)
    requires
        reaches(b, i, x),
        reaches(b, i, y),
        x <= y,
    ensures
        reaches(b, x, y),
    decreases x - i,
{
    if i < x {
        let op = spec_op_from_byte(b[i]).unwrap();
        lemma_reaches_split(b, i + op_len(op), x, y);
    }
}

/// Reaching a position only reads the bytes before it.
pub proof fn lemma_reaches_take(b: Seq<u8>, i: int, p: int, cut: int)
    requires
        reaches(b, i, p),
        p <= cut <= b.len(),
    ensures
        reaches(b.take(cut), i, p),
    decreases p - i,
{
    if i < p {
        let op = spec_op_from_byte(b[i]).unwrap();
        assert(b.take(cut)[i] == b[i]);
        lemma_reaches_take(b, i + op_len(op), p, cut);
    }
}

/// Replacing the instruction at boundary `p` by one of the same length keeps
/// every boundary a boundary.
pub proof fn lemma_reaches_replace(b: Seq<u8>, i: int, p: int, q: int, ni: Seq<u8>)
    requires
        reaches(b, i, p),
        reaches(b, i, q),
        p < b.len(),
        spec_op_from_byte(b[p]) matches Some(op) && op_len(op) == ni.len(),
        spec_op_from_byte(ni[0]) matches Some(op2) && op_len(op2) == ni.len(),
        ni.len() >= 1,
        p + ni.len() <= b.len(),
    ensures
        reaches(b.take(p) + ni + b.skip(p + ni.len()), i, q),
    decreases q - i,
{
    let n = ni.len() as int;
    let nb = b.take(p) + ni + b.skip(p + n);
    assert(nb.len() == b.len());
    if i < q {
        let op_i = spec_op_from_byte(b[i]).unwrap();
        if i == p {
            assert(nb[p] == ni[0]);
            let op2 = spec_op_from_byte(ni[0]).unwrap();
            lemma_reaches_same_suffix(b, nb, p + n, q);
        } else {
            assert(nb[i] == b[i]);
            if i < p {
                lemma_reaches_replace(b, i + op_len(op_i), p, q, ni);
            } else {
                assert forall|k: int| i <= k < b.len() implies nb[k] == b[k] by {
                    assert(nb[k] == b.skip(p + n)[k - p - n]);
                }
                lemma_reaches_same_suffix(b, nb, i, q);
            }
        }
    }
}

/// Reaching a position from `j` only reads the bytes from `j` on.
pub proof fn lemma_reaches_same_suffix(a: Seq<u8>, b: Seq<u8>, j: int, q: int)
    requires
        reaches(a, j, q),
        a.len() == b.len(),
        forall|k: int| j <= k < a.len() ==> a[k] == b[k],
    ensures
        reaches(b, j, q),
    decreases q - j,
{
    if j < q {
        let op = spec_op_from_byte(a[j]).unwrap();
        lemma_reaches_same_suffix(a, b, j + op_len(op), q);
    }
}

/// At a boundary before the end of complete instructions stands a whole
/// instruction, and the instructions from there on are complete.
pub proof fn lemma_reaches_wf_at(b: Seq<u8>, i: int, p: int)
    requires
        wf_instructions_from(b, i),
        reaches(b, i, p),
    ensures
        wf_instructions_from(b, p),
        p < b.len() ==> (spec_op_from_byte(b[p]) matches Some(op) && p + op_len(op) <= b.len()),
    decreases p - i,
{
    if i < p {
        let op = spec_op_from_byte(b[i]).unwrap();
        lemma_reaches_wf_at(b, i + op_len(op), p);
    }
}

/// Instructions that decode one after the other up to the end are
/// complete.
pub proof fn lemma_reaches_end_wf(b: Seq<u8>, i: int)
    requires
        reaches(b, i, b.len() as int),
    ensures
        wf_instructions_from(b, i),
    decreases b.len() - i,
{
    if i < b.len() {
        let op = spec_op_from_byte(b[i]).unwrap();
        lemma_reaches_end_wf(b, i + op_len(op));
    }
}

/// Whether `bytes` is made of complete instructions.
pub fn instructions_complete(bytes: &Vec<u8>) -> (r: bool)
    ensures
        r == wf_instructions(bytes@),
{
    let r = is_instruction_start(bytes, bytes.len());
    proof {
        if r {
            lemma_reaches_end_wf(bytes@, 0);
        } else if wf_instructions(bytes@) {
            lemma_wf_reaches_end(bytes@, 0);
        }
    }
    r
}

/// Whether an instruction of `bytes` starts at `pos` (or `pos` is the end).
pub fn is_instruction_start(bytes: &Vec<u8>, pos: usize) -> (r: bool)
    ensures
        r == is_boundary(bytes@, pos as int),
{
    if pos > bytes.len() {
        return false;
    }
    let mut i: usize = 0;
    while i < pos
        invariant
            i <= pos <= bytes@.len(),
            reaches(bytes@, 0, pos as int) == reaches(bytes@, i as int, pos as int),
        decreases pos - i,
    {
        match Opcode::from_byte(bytes[i]) {
            None => {
                return false;
            },
            Some(op) => {
                let def = definition(op);
                proof {
                    lemma_op_widths_small(op);
                }
                let mut w: usize = 0;
                let mut k: usize = 0;
                assert(def.operand_widths@.skip(0) =~= def.operand_widths@);
                while k < def.operand_widths.len()
                    invariant
                        def.operand_widths@ == spec_op_widths(op),
                        k <= def.operand_widths@.len(),
                        w + sum_widths(def.operand_widths@.skip(k as int)) == sum_widths(spec_op_widths(op)),
                        sum_widths(spec_op_widths(op)) <= 3,
                    decreases def.operand_widths@.len() - k,
                {
                    assert(def.operand_widths@.skip(k as int).drop_first() =~= def.operand_widths@.skip(k + 1));
                    w = w + def.operand_widths[k];
                    k = k + 1;
                }
                assert(def.operand_widths@.skip(k as int) =~= Seq::<usize>::empty());
                if 1 + w > pos - i {
                    return false;
                }
                i = i + 1 + w;
            },
        }
    }
    true
}

} // verus!
