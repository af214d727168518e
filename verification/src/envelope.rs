//! The Atomicals envelope of a reveal transaction: the data pushed between
//! `OP_IF` and `OP_ENDIF` in the script that the first input's witness
//! carries second.

use vstd::prelude::*;

verus! {

/// One step of a Bitcoin script as the `bitcoin` crate reads it: an opcode,
/// a data push, or a point where the script cannot be read further.
#[derive(Debug)]
pub enum ScriptItem {
    Op(u8),
    Push(Vec<u8>),
    Invalid,
}

/// The model of a [`ScriptItem`].
pub enum ScriptStep {
    Op(u8),
    Push(Seq<u8>),
    Invalid,
}

impl ScriptItem {
    pub open spec fn step(self) -> ScriptStep {
        match self {
            ScriptItem::Op(op) => ScriptStep::Op(op),
            ScriptItem::Push(b) => ScriptStep::Push(b@),
            ScriptItem::Invalid => ScriptStep::Invalid,
        }
    }
}

/// What `bitcoin::Script::instructions` yields for a script: one step per
/// instruction, an unreadable instruction ending the sequence.
pub uninterp spec fn bitcoin_script_steps(script: Seq<u8>) -> Seq<ScriptStep>;

/// The witness stacks of the inputs of the transaction that
/// `bitcoin::consensus::deserialize` reads from `raw`, when it reads one.
pub uninterp spec fn bitcoin_tx_witnesses(raw: Seq<u8>) -> Option<Seq<Seq<Seq<u8>>>>;

/// The witness stacks of a decoded transaction, one per input.
pub open spec fn witness_view(w: Vec<Vec<Vec<u8>>>) -> Seq<Seq<Seq<u8>>> {
    w@.map_values(|stack: Vec<Vec<u8>>| stack@.map_values(|item: Vec<u8>| item@))
}

/// The instructions of a script (`bitcoin::Script::instructions`), each
/// turned into a [`ScriptItem`]; an instruction that cannot be read becomes
/// `Invalid`, and the `bitcoin` crate ends the sequence there.
#[verifier::external_body]
pub(crate) fn script_items(script: &[u8]) -> (r: Vec<ScriptItem>)
    ensures
        r@.len() == bitcoin_script_steps(script@).len(),
        forall|i: int| 0 <= i < r@.len() ==> #[trigger] r@[i].step() == bitcoin_script_steps(script@)[i],
{
    bitcoin::Script::from_bytes(script).instructions().map(|item| match item {
        Ok(bitcoin::script::Instruction::Op(op)) => ScriptItem::Op(op.to_u8()),
        Ok(bitcoin::script::Instruction::PushBytes(data)) => ScriptItem::Push(data.as_bytes().to_vec()),
        Err(_) => ScriptItem::Invalid,
    }).collect()
}

/// Reads a transaction in consensus encoding
/// (`bitcoin::consensus::deserialize::<bitcoin::Transaction>`) and gives the
/// witness stack of each of its inputs; nothing when the bytes are not
/// exactly one transaction.
#[verifier::external_body]
pub(crate) fn transaction_witnesses(raw: &[u8]) -> (r: Option<Vec<Vec<Vec<u8>>>>)
    ensures
        match r {
            Some(w) => bitcoin_tx_witnesses(raw@) == Some(witness_view(w)),
            None => bitcoin_tx_witnesses(raw@) is None,
        },
{
    bitcoin::consensus::deserialize::<bitcoin::Transaction>(raw).ok().map(|tx| {
        tx.input.iter().map(|txin| txin.witness.iter().map(|item| item.to_vec()).collect()).collect()
    })
}

/// `OP_IF`
pub open spec fn op_if() -> u8 {
    0x63
}

/// `OP_ENDIF`
pub open spec fn op_endif() -> u8 {
    0x68
}

/// The marker that the first item of an Atomicals envelope pushes: `atom`.
pub open spec fn envelope_marker() -> Seq<u8> {
    seq![97u8, 116u8, 111u8, 109u8]
}

/// What reading an envelope gives.
pub enum EnvelopeSpec {
    /// The payload: the data of the third and later pushes.
    Payload(Seq<u8>),
    /// The envelope does not start with the marker `atom`.
    NotAtomicals,
    /// The script cannot be read, or an envelope item that should be a data
    /// push is an opcode.
    Unreadable,
}

/// Reads the envelope from step `i` on. `started` tells whether `OP_IF` has
/// been seen, `index` counts the envelope items seen, `acc` holds the
/// payload so far. Every `OP_IF` starts (or restarts) the envelope, the first
/// `OP_ENDIF` ends the reading; of the envelope items the first must push
/// the marker, the second is skipped, the others push payload data.
pub open spec fn read_envelope(steps: Seq<ScriptStep>, i: int, started: bool, index: int, acc: Seq<u8>) -> EnvelopeSpec
    decreases steps.len() - i,
{
    if i < 0 || i >= steps.len() {
        EnvelopeSpec::Payload(acc)
    } else {
        match steps[i] {
            ScriptStep::Invalid => EnvelopeSpec::Unreadable,
            ScriptStep::Op(op) => if op == op_if() {
                read_envelope(steps, i + 1, true, index, acc)
            } else if op == op_endif() {
                EnvelopeSpec::Payload(acc)
            } else if !started {
                read_envelope(steps, i + 1, started, index, acc)
            } else if index == 1 {
                read_envelope(steps, i + 1, started, index + 1, acc)
            } else {
                EnvelopeSpec::Unreadable
            },
            ScriptStep::Push(data) => if !started {
                read_envelope(steps, i + 1, started, index, acc)
            } else if index == 0 {
                if data == envelope_marker() {
                    read_envelope(steps, i + 1, started, index + 1, acc)
                } else {
                    EnvelopeSpec::NotAtomicals
                }
            } else if index == 1 {
                read_envelope(steps, i + 1, started, index + 1, acc)
            } else {
                read_envelope(steps, i + 1, started, index + 1, acc + data)
            },
        }
    }
}

/// The envelope carried by a script's steps.
pub open spec fn envelope_of(steps: Seq<ScriptStep>) -> EnvelopeSpec {
    read_envelope(steps, 0, false, 0, Seq::empty())
}

/// What reading an envelope gave.
#[derive(Debug)]
pub enum Envelope {
    Payload(Vec<u8>),
    NotAtomicals,
    Unreadable,
}

pub open spec fn envelope_view(e: Envelope) -> EnvelopeSpec {
    match e {
        Envelope::Payload(b) => EnvelopeSpec::Payload(b@),
        Envelope::NotAtomicals => EnvelopeSpec::NotAtomicals,
        Envelope::Unreadable => EnvelopeSpec::Unreadable,
    }
}

fn is_marker(data: &Vec<u8>) -> (r: bool)
    ensures
        r == (data@ == envelope_marker()),
{
    if data.len() != 4 {
        return false;
    }
    let r = data[0] == 97u8 && data[1] == 116u8 && data[2] == 111u8 && data[3] == 109u8;
    assert(r ==> data@ =~= envelope_marker());
    r
}

/// Reads the envelope from a script's items, as [`envelope_of`] describes it.
pub fn extract_envelope(items: &Vec<ScriptItem>) -> (r: Envelope)
    ensures
        envelope_view(r) == envelope_of(items@.map_values(|it: ScriptItem| it.step())),
{
    let ghost steps = items@.map_values(|it: ScriptItem| it.step());
    let mut started = false;
    let mut index: usize = 0;
    let mut payload: Vec<u8> = Vec::new();
    let mut i: usize = 0;
    while i < items.len()
        invariant
            i <= items@.len(),
            steps == items@.map_values(|it: ScriptItem| it.step()),
            index <= i,
            envelope_of(steps) == read_envelope(steps, i as int, started, index as int, payload@),
        decreases items@.len() - i,
    {
        assert(steps[i as int] == items@[i as int].step());
        match &items[i] {
            ScriptItem::Invalid => {
                return Envelope::Unreadable;
            },
            ScriptItem::Op(op) => {
                if *op == 0x63u8 {
                    started = true;
                } else if *op == 0x68u8 {
                    return Envelope::Payload(payload);
                } else if started {
                    if index == 1 {
                        index += 1;
                    } else {
                        return Envelope::Unreadable;
                    }
                }
            },
            ScriptItem::Push(data) => {
                if started {
                    if index == 0 {
                        if !is_marker(data) {
                            return Envelope::NotAtomicals;
                        }
                    } else if index > 1 {
                        let ghost before = payload@;
                        let mut k: usize = 0;
                        while k < data.len()
                            invariant
                                k <= data@.len(),
                                payload@ == before + data@.subrange(0, k as int),
                            decreases data@.len() - k,
                        {
                            payload.push(data[k]);
                            assert(before + data@.subrange(0, k + 1) =~= (before + data@.subrange(0, k as int)).push(data@[k as int]));
                            k += 1;
                        }
                        assert(data@.subrange(0, data@.len() as int) =~= data@);
                    }
                    index += 1;
                }
            },
        }
        i += 1;
    }
    Envelope::Payload(payload)
}

} // verus!
