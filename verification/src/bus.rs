//! The messages a row of an AIR sends to the buses that tie the chips together: execution
//! (the instruction and the change of program counter and timestamp), memory reads and writes,
//! and range-check requests.  A message counts as many times as its multiplicity, which is a
//! selector of the row: zero on rows that do not act.
use crate::field::BabyBear;
use vstd::prelude::*;

verus! {

/// The bus a message goes to.
#[derive(Clone, Copy, Debug, PartialEq, Eq, Structural)]
pub enum Bus {
    /// `[opcode, operands.., from_pc, from_timestamp, to_pc, to_timestamp]`.
    Execution,
    /// `[address_space, pointer, timestamp, data..]`: the cells read at that timestamp.
    MemoryRead,
    /// `[address_space, pointer, timestamp, data..]`: the cells written at that timestamp.
    MemoryWrite,
    /// `[value, bits]`: the value is below `2^bits`.
    RangeCheck,
}

/// One message of a row: its bus, its multiplicity and its fields.
#[derive(Clone, Debug)]
pub struct Interaction {
    pub bus: Bus,
    pub count: BabyBear,
    pub fields: Vec<BabyBear>,
}

/// `i` is the message to `bus` with multiplicity `count` and the given field values.
pub open spec fn is_interaction(i: Interaction, bus: Bus, count: int, fields: Seq<int>) -> bool {
    &&& i.bus == bus
    &&& i.count.val() == count
    &&& i.fields@.len() == fields.len()
    &&& forall|k: int| 0 <= k < fields.len() ==> (#[trigger] i.fields@[k]).val() == fields[k]
}

/// A message with the given fields.
pub fn interaction(bus: Bus, count: BabyBear, fields: Vec<BabyBear>) -> (r: Interaction)
    ensures
        r.bus == bus,
        r.count == count,
        r.fields@ == fields@,
{
    Interaction { bus, count, fields }
}

/// The values of a sequence of field elements.
pub open spec fn vals(s: Seq<BabyBear>) -> Seq<int> {
    Seq::new(s.len(), |k: int| s[k].val())
}

/// A memory message: `[address_space, pointer, timestamp]` followed by the data.
pub fn memory_message(
    bus: Bus,
    count: BabyBear,
    address_space: BabyBear,
    pointer: BabyBear,
    timestamp: BabyBear,
    data: &[BabyBear],
) -> (r: Interaction)
    ensures
        is_interaction(
            r,
            bus,
            count.val(),
            seq![address_space.val(), pointer.val(), timestamp.val()] + vals(data@),
        ),
{
    let mut fields: Vec<BabyBear> = Vec::new();
    fields.push(address_space);
    fields.push(pointer);
    fields.push(timestamp);
    let mut k: usize = 0;
    while k < data.len()
        invariant
            k <= data@.len(),
            fields@.len() == 3 + k,
            fields@[0] == address_space && fields@[1] == pointer && fields@[2] == timestamp,
            forall|j: int| 0 <= j < k ==> #[trigger] fields@[3 + j] == data@[j],
        decreases data@.len() - k,
    {
        fields.push(data[k]);
        k = k + 1;
    }
    let r = Interaction { bus, count, fields };
    proof {
        let want = seq![address_space.val(), pointer.val(), timestamp.val()] + vals(data@);
        assert forall|j: int| 0 <= j < want.len() implies (#[trigger] r.fields@[j]).val() == want[j] by {
            if j >= 3 {
                assert(r.fields@[3 + (j - 3)] == data@[j - 3]);
            }
        }
    }
    r
}

/// An execution message: the opcode and operands, then the state before and after.
pub fn execution_message(
    count: BabyBear,
    opcode: BabyBear,
    operands: &[BabyBear],
    from_pc: BabyBear,
    from_timestamp: BabyBear,
    to_pc: BabyBear,
    to_timestamp: BabyBear,
) -> (r: Interaction)
    ensures
        is_interaction(
            r,
            Bus::Execution,
            count.val(),
            seq![opcode.val()] + vals(operands@) + seq![
                from_pc.val(),
                from_timestamp.val(),
                to_pc.val(),
                to_timestamp.val(),
            ],
        ),
{
    let mut fields: Vec<BabyBear> = Vec::new();
    fields.push(opcode);
    let mut k: usize = 0;
    while k < operands.len()
        invariant
            k <= operands@.len(),
            fields@.len() == 1 + k,
            fields@[0] == opcode,
            forall|j: int| 0 <= j < k ==> #[trigger] fields@[1 + j] == operands@[j],
        decreases operands@.len() - k,
    {
        fields.push(operands[k]);
        k = k + 1;
    }
    fields.push(from_pc);
    fields.push(from_timestamp);
    fields.push(to_pc);
    fields.push(to_timestamp);
    let r = Interaction { bus: Bus::Execution, count, fields };
    proof {
        let n = operands@.len();
        let want = seq![opcode.val()] + vals(operands@) + seq![
            from_pc.val(),
            from_timestamp.val(),
            to_pc.val(),
            to_timestamp.val(),
        ];
        assert forall|j: int| 0 <= j < want.len() implies (#[trigger] r.fields@[j]).val() == want[j] by {
            if 1 <= j < 1 + n {
                assert(r.fields@[1 + (j - 1)] == operands@[j - 1]);
            }
        }
    }
    r
}

} // verus!
