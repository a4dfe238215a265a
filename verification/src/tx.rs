//! The transaction model and its wire codec.
//!
//! A transaction is decoded from the canonical binary encoding of the chain:
//! a little-endian version, the input list, the output list, an optional
//! segregated-witness section (marker byte 0, flag byte 1, one witness stack
//! per input), and a little-endian lock time. The parser consumes the whole
//! payload and accepts only minimal length prefixes, so a successful decode
//! pins the exact bytes: re-encoding yields the original payload.

use vstd::prelude::*;

use crate::encoding::{
    enc_chunk, lemma_parse_list_step, lemma_enc_list_push, lemma_subrange_all, lemma_subrange_split, read_chunk,
    read_nbytes, read_u32le, read_u64le, read_varint, write_chunk, write_raw, write_u32le,
    write_u64le, write_varint, enc_list, enc_u32le, enc_u64le, enc_varint, lemma_parse_chunk_sound,
    lemma_parse_list_sound, lemma_parse_u32le_sound, lemma_parse_u64le_sound,
    lemma_parse_varint_sound, parse_chunk, parse_list, parse_nbytes, parse_u32le, parse_u64le,
    parse_varint, parser_sound_for,
};

verus! {

pub struct TxInput {
    /// Wire-order (not display-order) id of the previous transaction.
    pub prev_txid: Vec<u8>,
    /// Index of the spent output in the previous transaction.
    pub prev_vout: u32,
    pub script_sig: Vec<u8>,
    pub sequence: u32,
}

pub struct TxOutput {
    /// Amount in satoshi.
    pub value: u64,
    /// The spending condition; the address codec reads it.
    pub script_pubkey: Vec<u8>,
}

pub struct Transaction {
    pub version: u32,
    /// Whether the payload used the segregated-witness encoding.
    pub segwit: bool,
    pub inputs: Vec<TxInput>,
    pub outputs: Vec<TxOutput>,
    /// One witness stack per input when `segwit`, empty otherwise.
    pub witnesses: Vec<Vec<Vec<u8>>>,
    pub locktime: u32,
}

pub ghost struct InputModel {
    pub prev_txid: Seq<u8>,
    pub prev_vout: u32,
    pub script_sig: Seq<u8>,
    pub sequence: u32,
}

pub ghost struct OutputModel {
    pub value: u64,
    pub script_pubkey: Seq<u8>,
}

pub ghost struct TxModel {
    pub version: u32,
    pub segwit: bool,
    pub inputs: Seq<InputModel>,
    pub outputs: Seq<OutputModel>,
    pub witnesses: Seq<Seq<Seq<u8>>>,
    pub locktime: u32,
}

impl View for TxInput {
    type V = InputModel;

    open spec fn view(&self) -> InputModel {
        InputModel {
            prev_txid: self.prev_txid@,
            prev_vout: self.prev_vout,
            script_sig: self.script_sig@,
            sequence: self.sequence,
        }
    }
}

impl View for TxOutput {
    type V = OutputModel;

    open spec fn view(&self) -> OutputModel {
        OutputModel { value: self.value, script_pubkey: self.script_pubkey@ }
    }
}

pub open spec fn stack_view(s: Vec<Vec<u8>>) -> Seq<Seq<u8>> {
    s@.map_values(|c: Vec<u8>| c@)
}

impl View for Transaction {
    type V = TxModel;

    open spec fn view(&self) -> TxModel {
        TxModel {
            version: self.version,
            segwit: self.segwit,
            inputs: self.inputs@.map_values(|i: TxInput| i@),
            outputs: self.outputs@.map_values(|o: TxOutput| o@),
            witnesses: self.witnesses@.map_values(|s: Vec<Vec<u8>>| stack_view(s)),
            locktime: self.locktime,
        }
    }
}

impl TxModel {
    /// What every decoded transaction satisfies.
    pub open spec fn wf(self) -> bool {
        &&& forall|i: int| 0 <= i < self.inputs.len() ==> (#[trigger] self.inputs[i]).prev_txid.len() == 32
        &&& self.segwit ==> self.witnesses.len() == self.inputs.len()
        &&& !self.segwit ==> self.witnesses.len() == 0
    }
}

pub open spec fn enc_input(i: InputModel) -> Seq<u8> {
    i.prev_txid + enc_u32le(i.prev_vout) + enc_chunk(i.script_sig) + enc_u32le(i.sequence)
}

pub open spec fn enc_output(o: OutputModel) -> Seq<u8> {
    enc_u64le(o.value) + enc_chunk(o.script_pubkey)
}

pub open spec fn enc_wstack(w: Seq<Seq<u8>>) -> Seq<u8> {
    enc_varint(w.len() as u64) + enc_list(w, chunk_enc())
}

pub open spec fn chunk_enc() -> spec_fn(Seq<u8>) -> Seq<u8> {
    |s: Seq<u8>| enc_chunk(s)
}

pub open spec fn input_enc() -> spec_fn(InputModel) -> Seq<u8> {
    |i: InputModel| enc_input(i)
}

pub open spec fn output_enc() -> spec_fn(OutputModel) -> Seq<u8> {
    |o: OutputModel| enc_output(o)
}

pub open spec fn wstack_enc() -> spec_fn(Seq<Seq<u8>>) -> Seq<u8> {
    |w: Seq<Seq<u8>>| enc_wstack(w)
}

/// The canonical encoding of a transaction.
pub open spec fn enc_tx(t: TxModel) -> Seq<u8> {
    enc_u32le(t.version) + (if t.segwit {
        seq![0u8, 1u8]
    } else {
        Seq::empty()
    }) + enc_varint(t.inputs.len() as u64) + enc_list(t.inputs, input_enc()) + enc_varint(
        t.outputs.len() as u64,
    ) + enc_list(t.outputs, output_enc()) + (if t.segwit {
        enc_list(t.witnesses, wstack_enc())
    } else {
        Seq::empty()
    }) + enc_u32le(t.locktime)
}

pub open spec fn parse_input(b: Seq<u8>, pos: int) -> Option<(InputModel, int)> {
    match parse_nbytes(b, pos, 32) {
        Some((txid, p1)) => match parse_u32le(b, p1) {
            Some((vout, p2)) => match parse_chunk(b, p2) {
                Some((script, p3)) => match parse_u32le(b, p3) {
                    Some((sequ, p4)) => Some(
                        (
                            InputModel {
                                prev_txid: txid,
                                prev_vout: vout,
                                script_sig: script,
                                sequence: sequ,
                            },
                            p4,
                        ),
                    ),
                    None => None,
                },
                None => None,
            },
            None => None,
        },
        None => None,
    }
}

pub open spec fn parse_output(b: Seq<u8>, pos: int) -> Option<(OutputModel, int)> {
    match parse_u64le(b, pos) {
        Some((value, p1)) => match parse_chunk(b, p1) {
            Some((script, p2)) => Some((OutputModel { value: value, script_pubkey: script }, p2)),
            None => None,
        },
        None => None,
    }
}

pub open spec fn chunk_parser() -> spec_fn(Seq<u8>, int) -> Option<(Seq<u8>, int)> {
    |b: Seq<u8>, pos: int| parse_chunk(b, pos)
}

pub open spec fn parse_wstack(b: Seq<u8>, pos: int) -> Option<(Seq<Seq<u8>>, int)> {
    match parse_varint(b, pos) {
        Some((n, p)) => parse_list(b, p, n as nat, chunk_parser()),
        None => None,
    }
}

pub open spec fn input_parser() -> spec_fn(Seq<u8>, int) -> Option<(InputModel, int)> {
    |b: Seq<u8>, pos: int| parse_input(b, pos)
}

pub open spec fn output_parser() -> spec_fn(Seq<u8>, int) -> Option<(OutputModel, int)> {
    |b: Seq<u8>, pos: int| parse_output(b, pos)
}

pub open spec fn wstack_parser() -> spec_fn(Seq<u8>, int) -> Option<(Seq<Seq<u8>>, int)> {
    |b: Seq<u8>, pos: int| parse_wstack(b, pos)
}

/// The total parser for the canonical transaction encoding. It demands that
/// the whole payload is consumed.
pub open spec fn parse_tx(b: Seq<u8>) -> Option<TxModel> {
    match parse_u32le(b, 0) {
        Some((version, p0)) => match parse_varint(b, p0) {
            Some((n0, p1)) => if n0 == 0 {
                // A zero input count marks the segregated-witness encoding;
                // the flag byte must be 1.
                if p1 < b.len() && b[p1] == 1 {
                    parse_tx_segwit(b, version, p1 + 1)
                } else {
                    None
                }
            } else {
                parse_tx_legacy(b, version, n0, p1)
            },
            None => None,
        },
        None => None,
    }
}

pub open spec fn parse_tx_legacy(b: Seq<u8>, version: u32, nin: u64, pos: int) -> Option<TxModel> {
    match parse_list(b, pos, nin as nat, input_parser()) {
        Some((ins, p2)) => match parse_varint(b, p2) {
            Some((nout, p3)) => match parse_list(b, p3, nout as nat, output_parser()) {
                Some((outs, p4)) => match parse_u32le(b, p4) {
                    Some((lock, p5)) => if p5 == b.len() {
                        Some(
                            TxModel {
                                version: version,
                                segwit: false,
                                inputs: ins,
                                outputs: outs,
                                witnesses: Seq::empty(),
                                locktime: lock,
                            },
                        )
                    } else {
                        None
                    },
                    None => None,
                },
                None => None,
            },
            None => None,
        },
        None => None,
    }
}

pub open spec fn parse_tx_segwit(b: Seq<u8>, version: u32, pos: int) -> Option<TxModel> {
    match parse_varint(b, pos) {
        Some((nin, p2)) => match parse_list(b, p2, nin as nat, input_parser()) {
            Some((ins, p3)) => match parse_varint(b, p3) {
                Some((nout, p4)) => match parse_list(b, p4, nout as nat, output_parser()) {
                    Some((outs, p5)) => match parse_list(b, p5, nin as nat, wstack_parser()) {
                        Some((wits, p6)) => match parse_u32le(b, p6) {
                            Some((lock, p7)) => if p7 == b.len() {
                                Some(
                                    TxModel {
                                        version: version,
                                        segwit: true,
                                        inputs: ins,
                                        outputs: outs,
                                        witnesses: wits,
                                        locktime: lock,
                                    },
                                )
                            } else {
                                None
                            },
                            None => None,
                        },
                        None => None,
                    },
                    None => None,
                },
                None => None,
            },
            None => None,
        },
        None => None,
    }
}

pub proof fn lemma_chunk_parser_sound(b: Seq<u8>)
    ensures
        parser_sound_for(b, chunk_parser(), chunk_enc()),
{
    assert forall|p: int|
        #[trigger] chunk_parser()(b, p) matches Some(xq) ==> 0 <= p <= xq.1 <= b.len() && b.subrange(
            p,
            xq.1,
        ) == chunk_enc()(xq.0) by {
        if chunk_parser()(b, p) is Some {
            let (x, q) = chunk_parser()(b, p).unwrap();
            lemma_parse_chunk_sound(b, p, x, q);
        }
    }
}

pub proof fn lemma_parse_input_sound(b: Seq<u8>, pos: int, x: InputModel, p: int)
    requires
        parse_input(b, pos) == Some::<(InputModel, int)>((x, p)),
    ensures
        0 <= pos <= p <= b.len(),
        b.subrange(pos, p) == enc_input(x),
        x.prev_txid.len() == 32,
{
    let (txid, p1) = parse_nbytes(b, pos, 32).unwrap();
    let (vout, p2) = parse_u32le(b, p1).unwrap();
    let (script, p3) = parse_chunk(b, p2).unwrap();
    let (sequ, p4) = parse_u32le(b, p3).unwrap();
    lemma_parse_u32le_sound(b, p1, vout, p2);
    lemma_parse_chunk_sound(b, p2, script, p3);
    lemma_parse_u32le_sound(b, p3, sequ, p4);
    assert(b.subrange(pos, p1) == txid);
    assert(b.subrange(pos, p) =~= b.subrange(pos, p1) + b.subrange(p1, p2) + b.subrange(p2, p3)
        + b.subrange(p3, p4));
}

pub proof fn lemma_parse_output_sound(b: Seq<u8>, pos: int, x: OutputModel, p: int)
    requires
        parse_output(b, pos) == Some::<(OutputModel, int)>((x, p)),
    ensures
        0 <= pos <= p <= b.len(),
        b.subrange(pos, p) == enc_output(x),
{
    let (value, p1) = parse_u64le(b, pos).unwrap();
    let (script, p2) = parse_chunk(b, p1).unwrap();
    lemma_parse_u64le_sound(b, pos, value, p1);
    lemma_parse_chunk_sound(b, p1, script, p2);
    assert(b.subrange(pos, p) =~= b.subrange(pos, p1) + b.subrange(p1, p2));
}

pub proof fn lemma_parse_wstack_sound(b: Seq<u8>, pos: int, x: Seq<Seq<u8>>, p: int)
    requires
        parse_wstack(b, pos) == Some::<(Seq<Seq<u8>>, int)>((x, p)),
    ensures
        0 <= pos <= p <= b.len(),
        b.subrange(pos, p) == enc_wstack(x),
{
    let (n, p1) = parse_varint(b, pos).unwrap();
    lemma_parse_varint_sound(b, pos, n, p1);
    lemma_chunk_parser_sound(b);
    lemma_parse_list_sound(b, p1, n as nat, chunk_parser(), chunk_enc(), x, p);
    assert(x.len() == n);
    assert(b.subrange(pos, p) =~= b.subrange(pos, p1) + b.subrange(p1, p));
}

pub proof fn lemma_input_parser_sound(b: Seq<u8>)
    ensures
        parser_sound_for(b, input_parser(), input_enc()),
{
    assert forall|p: int|
        #[trigger] input_parser()(b, p) matches Some(xq) ==> 0 <= p <= xq.1 <= b.len() && b.subrange(
            p,
            xq.1,
        ) == input_enc()(xq.0) by {
        if input_parser()(b, p) is Some {
            let (x, q) = input_parser()(b, p).unwrap();
            lemma_parse_input_sound(b, p, x, q);
        }
    }
}

pub proof fn lemma_output_parser_sound(b: Seq<u8>)
    ensures
        parser_sound_for(b, output_parser(), output_enc()),
{
    assert forall|p: int|
        #[trigger] output_parser()(b, p) matches Some(xq) ==> 0 <= p <= xq.1 <= b.len() && b.subrange(
            p,
            xq.1,
        ) == output_enc()(xq.0) by {
        if output_parser()(b, p) is Some {
            let (x, q) = output_parser()(b, p).unwrap();
            lemma_parse_output_sound(b, p, x, q);
        }
    }
}

pub proof fn lemma_wstack_parser_sound(b: Seq<u8>)
    ensures
        parser_sound_for(b, wstack_parser(), wstack_enc()),
{
    assert forall|p: int|
        #[trigger] wstack_parser()(b, p) matches Some(xq) ==> 0 <= p <= xq.1 <= b.len() && b.subrange(
            p,
            xq.1,
        ) == wstack_enc()(xq.0) by {
        if wstack_parser()(b, p) is Some {
            let (x, q) = wstack_parser()(b, p).unwrap();
            lemma_parse_wstack_sound(b, p, x, q);
        }
    }
}

/// Every input's id is 32 bytes wide after a successful list parse.
pub proof fn lemma_input_list_txid_len(
    b: Seq<u8>,
    pos: int,
    k: nat,
    ins: Seq<InputModel>,
    p: int,
)
    requires
        parse_list(b, pos, k, input_parser()) == Some::<(Seq<InputModel>, int)>((ins, p)),
    ensures
        forall|i: int| 0 <= i < ins.len() ==> (#[trigger] ins[i]).prev_txid.len() == 32,
    decreases k,
{
    if k > 0 {
        let (x, q) = input_parser()(b, pos).unwrap();
        let (rest, p2) = parse_list(b, q, (k - 1) as nat, input_parser()).unwrap();
        lemma_parse_input_sound(b, pos, x, q);
        lemma_input_list_txid_len(b, q, (k - 1) as nat, rest, p2);
        assert(ins == seq![x] + rest);
        assert forall|i: int| 0 <= i < ins.len() implies (#[trigger] ins[i]).prev_txid.len()
            == 32 by {
            if i == 0 {
                assert(ins[0] == x);
            } else {
                assert(ins[i] == rest[i - 1]);
            }
        }
    }
}

/// Decoding then re-encoding a transaction payload yields the original
/// bytes: every successful parse consumed exactly the canonical encoding of
/// the transaction it returned.
#[verifier::rlimit(100)]
pub proof fn lemma_parse_tx_round_trip(b: Seq<u8>, t: TxModel)
    requires
        parse_tx(b) == Some(t),
    ensures
        enc_tx(t) == b,
        t.wf(),
{
    let (version, p0) = parse_u32le(b, 0).unwrap();
    lemma_parse_u32le_sound(b, 0, version, p0);
    let (n0, p1) = parse_varint(b, p0).unwrap();
    lemma_parse_varint_sound(b, p0, n0, p1);
    lemma_input_parser_sound(b);
    lemma_output_parser_sound(b);
    lemma_wstack_parser_sound(b);
    if n0 == 0 {
        let pf = p1 + 1;
        let (nin, p2) = parse_varint(b, pf).unwrap();
        lemma_parse_varint_sound(b, pf, nin, p2);
        let (ins, p3) = parse_list(b, p2, nin as nat, input_parser()).unwrap();
        lemma_parse_list_sound(b, p2, nin as nat, input_parser(), input_enc(), ins, p3);
        lemma_input_list_txid_len(b, p2, nin as nat, ins, p3);
        let (nout, p4) = parse_varint(b, p3).unwrap();
        lemma_parse_varint_sound(b, p3, nout, p4);
        let (outs, p5) = parse_list(b, p4, nout as nat, output_parser()).unwrap();
        lemma_parse_list_sound(b, p4, nout as nat, output_parser(), output_enc(), outs, p5);
        let (wits, p6) = parse_list(b, p5, nin as nat, wstack_parser()).unwrap();
        lemma_parse_list_sound(b, p5, nin as nat, wstack_parser(), wstack_enc(), wits, p6);
        let (lock, p7) = parse_u32le(b, p6).unwrap();
        lemma_parse_u32le_sound(b, p6, lock, p7);
        assert(ins.len() == nin && outs.len() == nout && wits.len() == nin);
        assert(b.subrange(p0, p1) == seq![0u8]);
        assert(b.subrange(p1, pf) =~= seq![1u8]);
        lemma_subrange_split(b, p0, p1, pf);
        assert(b.subrange(p0, pf) =~= seq![0u8, 1u8]);
        lemma_subrange_split(b, 0, p0, pf);
        lemma_subrange_split(b, 0, pf, p2);
        lemma_subrange_split(b, 0, p2, p3);
        lemma_subrange_split(b, 0, p3, p4);
        lemma_subrange_split(b, 0, p4, p5);
        lemma_subrange_split(b, 0, p5, p6);
        lemma_subrange_split(b, 0, p6, p7);
        lemma_subrange_all(b);
        assert(b.subrange(0, pf) == enc_u32le(version) + seq![0u8, 1u8]);
        assert(b.subrange(0, p2) == enc_u32le(version) + seq![0u8, 1u8] + enc_varint(nin));
        assert(b.subrange(0, p3) == enc_u32le(version) + seq![0u8, 1u8] + enc_varint(nin)
            + enc_list(ins, input_enc()));
        assert(b.subrange(0, p4) == enc_u32le(version) + seq![0u8, 1u8] + enc_varint(nin)
            + enc_list(ins, input_enc()) + enc_varint(nout));
        assert(b.subrange(0, p5) == enc_u32le(version) + seq![0u8, 1u8] + enc_varint(nin)
            + enc_list(ins, input_enc()) + enc_varint(nout) + enc_list(outs, output_enc()));
        assert(b.subrange(0, p6) == enc_u32le(version) + seq![0u8, 1u8] + enc_varint(nin)
            + enc_list(ins, input_enc()) + enc_varint(nout) + enc_list(outs, output_enc())
            + enc_list(wits, wstack_enc()));
        assert(b.subrange(0, p7) == enc_u32le(version) + seq![0u8, 1u8] + enc_varint(nin)
            + enc_list(ins, input_enc()) + enc_varint(nout) + enc_list(outs, output_enc())
            + enc_list(wits, wstack_enc()) + enc_u32le(lock));
        assert(enc_tx(t) == b.subrange(0, p7));
    } else {
        let (ins, p2) = parse_list(b, p1, n0 as nat, input_parser()).unwrap();
        lemma_parse_list_sound(b, p1, n0 as nat, input_parser(), input_enc(), ins, p2);
        lemma_input_list_txid_len(b, p1, n0 as nat, ins, p2);
        let (nout, p3) = parse_varint(b, p2).unwrap();
        lemma_parse_varint_sound(b, p2, nout, p3);
        let (outs, p4) = parse_list(b, p3, nout as nat, output_parser()).unwrap();
        lemma_parse_list_sound(b, p3, nout as nat, output_parser(), output_enc(), outs, p4);
        let (lock, p5) = parse_u32le(b, p4).unwrap();
        lemma_parse_u32le_sound(b, p4, lock, p5);
        assert(ins.len() == n0 && outs.len() == nout);
        lemma_subrange_split(b, 0, p0, p1);
        lemma_subrange_split(b, 0, p1, p2);
        lemma_subrange_split(b, 0, p2, p3);
        lemma_subrange_split(b, 0, p3, p4);
        lemma_subrange_split(b, 0, p4, p5);
        lemma_subrange_all(b);
        assert(enc_u32le(version) + Seq::<u8>::empty() =~= enc_u32le(version));
        assert(b.subrange(0, p1) == enc_u32le(version) + enc_varint(n0));
        assert(b.subrange(0, p2) == enc_u32le(version) + enc_varint(n0)
            + enc_list(ins, input_enc()));
        assert(b.subrange(0, p3) == enc_u32le(version) + enc_varint(n0)
            + enc_list(ins, input_enc()) + enc_varint(nout));
        assert(b.subrange(0, p4) == enc_u32le(version) + enc_varint(n0)
            + enc_list(ins, input_enc()) + enc_varint(nout) + enc_list(outs, output_enc()));
        let body = enc_u32le(version) + enc_varint(n0) + enc_list(ins, input_enc())
            + enc_varint(nout) + enc_list(outs, output_enc());
        assert(body + Seq::<u8>::empty() =~= body);
        assert(b.subrange(0, p5) == body + enc_u32le(lock));
        assert(enc_tx(t) == b.subrange(0, p5));
    }
}

/// Executable mirror of `parse_input`.
pub fn read_input(b: &[u8], pos: usize) -> (r: Option<(TxInput, usize)>)
    ensures
        match r {
            Some((x, p)) => parse_input(b@, pos as int) == Some::<(InputModel, int)>(
                (x@, p as int),
            ),
            None => parse_input(b@, pos as int) is None,
        },
{
    match read_nbytes(b, pos, 32) {
        Some((txid, p1)) => match read_u32le(b, p1) {
            Some((vout, p2)) => match read_chunk(b, p2) {
                Some((script, p3)) => match read_u32le(b, p3) {
                    Some((sequ, p4)) => Some(
                        (
                            TxInput {
                                prev_txid: txid,
                                prev_vout: vout,
                                script_sig: script,
                                sequence: sequ,
                            },
                            p4,
                        ),
                    ),
                    None => None,
                },
                None => None,
            },
            None => None,
        },
        None => None,
    }
}

/// Executable mirror of `parse_output`.
pub fn read_output(b: &[u8], pos: usize) -> (r: Option<(TxOutput, usize)>)
    ensures
        match r {
            Some((x, p)) => parse_output(b@, pos as int) == Some::<(OutputModel, int)>(
                (x@, p as int),
            ),
            None => parse_output(b@, pos as int) is None,
        },
{
    match read_u64le(b, pos) {
        Some((value, p1)) => match read_chunk(b, p1) {
            Some((script, p2)) => Some((TxOutput { value: value, script_pubkey: script }, p2)),
            None => None,
        },
        None => None,
    }
}

/// Executable mirror of `parse_wstack`: one witness stack.
pub fn read_wstack(b: &[u8], pos: usize) -> (r: Option<(Vec<Vec<u8>>, usize)>)
    ensures
        match r {
            Some((x, p)) => parse_wstack(b@, pos as int) == Some::<(Seq<Seq<u8>>, int)>(
                (stack_view(x), p as int),
            ),
            None => parse_wstack(b@, pos as int) is None,
        },
{
    match read_varint(b, pos) {
        Some((n, p)) => {
            let mut items: Vec<Vec<u8>> = Vec::new();
            let mut cur = p;
            let mut i: u64 = 0;
            while i < n
                invariant
                    i <= n,
                    parse_varint(b@, pos as int) == Some::<(u64, int)>((n, p as int)),
                    parse_list(b@, p as int, n as nat, chunk_parser()) == (match parse_list(
                        b@,
                        cur as int,
                        (n - i) as nat,
                        chunk_parser(),
                    ) {
                        Some((xs, q)) => Some::<(Seq<Seq<u8>>, int)>((stack_view(items) + xs, q)),
                        None => None::<(Seq<Seq<u8>>, int)>,
                    }),
                decreases n - i,
            {
                proof {
                    lemma_parse_list_step(b@, cur as int, (n - i) as nat, chunk_parser());
                }
                match read_chunk(b, cur) {
                    Some((c, p2)) => {
                        let ghost prev = stack_view(items);
                        items.push(c);
                        cur = p2;
                        i = i + 1;
                        proof {
                            assert(stack_view(items) =~= prev.push(c@));
                            if parse_list(b@, cur as int, (n - i) as nat, chunk_parser())
                                is Some {
                                let (xs, q) = parse_list(
                                    b@,
                                    cur as int,
                                    (n - i) as nat,
                                    chunk_parser(),
                                ).unwrap();
                                assert(prev.push(c@) + xs =~= prev + (seq![c@] + xs));
                            }
                        }
                    },
                    None => {
                        return None;
                    },
                }
            }
            proof {
                assert(stack_view(items) + Seq::<Seq<u8>>::empty() =~= stack_view(items));
            }
            Some((items, cur))
        },
        None => None,
    }
}

/// Reads `k` transaction inputs.
pub fn read_input_list(b: &[u8], pos: usize, k: u64) -> (r: Option<(Vec<TxInput>, usize)>)
    ensures
        match r {
            Some((v, p)) => parse_list(b@, pos as int, k as nat, input_parser())
                == Some::<(Seq<InputModel>, int)>(
                (v@.map_values(|x: TxInput| x@), p as int),
            ),
            None => parse_list(b@, pos as int, k as nat, input_parser()) is None,
        },
{
    let mut items: Vec<TxInput> = Vec::new();
    let mut cur = pos;
    let mut i: u64 = 0;
    while i < k
        invariant
            i <= k,
            parse_list(b@, pos as int, k as nat, input_parser()) == (match parse_list(
                b@,
                cur as int,
                (k - i) as nat,
                input_parser(),
            ) {
                Some((xs, q)) => Some::<(Seq<InputModel>, int)>(
                    (items@.map_values(|x: TxInput| x@) + xs, q),
                ),
                None => None::<(Seq<InputModel>, int)>,
            }),
        decreases k - i,
    {
        proof {
            lemma_parse_list_step(b@, cur as int, (k - i) as nat, input_parser());
        }
        match read_input(b, cur) {
            Some((x, p2)) => {
                let ghost prev = items@.map_values(|t: TxInput| t@);
                let ghost xv = x@;
                items.push(x);
                cur = p2;
                i = i + 1;
                proof {
                    assert(items@.map_values(|t: TxInput| t@) =~= prev.push(xv));
                    if parse_list(b@, cur as int, (k - i) as nat, input_parser()) is Some {
                        let (xs, q) = parse_list(
                            b@,
                            cur as int,
                            (k - i) as nat,
                            input_parser(),
                        ).unwrap();
                        assert(prev.push(xv) + xs =~= prev + (seq![xv] + xs));
                    }
                }
            },
            None => {
                return None;
            },
        }
    }
    proof {
        let v = items@.map_values(|t: TxInput| t@);
        assert(v + Seq::<InputModel>::empty() =~= v);
    }
    Some((items, cur))
}

/// Reads `k` transaction outputs.
pub fn read_output_list(b: &[u8], pos: usize, k: u64) -> (r: Option<(Vec<TxOutput>, usize)>)
    ensures
        match r {
            Some((v, p)) => parse_list(b@, pos as int, k as nat, output_parser())
                == Some::<(Seq<OutputModel>, int)>(
                (v@.map_values(|x: TxOutput| x@), p as int),
            ),
            None => parse_list(b@, pos as int, k as nat, output_parser()) is None,
        },
{
    let mut items: Vec<TxOutput> = Vec::new();
    let mut cur = pos;
    let mut i: u64 = 0;
    while i < k
        invariant
            i <= k,
            parse_list(b@, pos as int, k as nat, output_parser()) == (match parse_list(
                b@,
                cur as int,
                (k - i) as nat,
                output_parser(),
            ) {
                Some((xs, q)) => Some::<(Seq<OutputModel>, int)>(
                    (items@.map_values(|x: TxOutput| x@) + xs, q),
                ),
                None => None::<(Seq<OutputModel>, int)>,
            }),
        decreases k - i,
    {
        proof {
            lemma_parse_list_step(b@, cur as int, (k - i) as nat, output_parser());
        }
        match read_output(b, cur) {
            Some((x, p2)) => {
                let ghost prev = items@.map_values(|t: TxOutput| t@);
                let ghost xv = x@;
                items.push(x);
                cur = p2;
                i = i + 1;
                proof {
                    assert(items@.map_values(|t: TxOutput| t@) =~= prev.push(xv));
                    if parse_list(b@, cur as int, (k - i) as nat, output_parser()) is Some {
                        let (xs, q) = parse_list(
                            b@,
                            cur as int,
                            (k - i) as nat,
                            output_parser(),
                        ).unwrap();
                        assert(prev.push(xv) + xs =~= prev + (seq![xv] + xs));
                    }
                }
            },
            None => {
                return None;
            },
        }
    }
    proof {
        let v = items@.map_values(|t: TxOutput| t@);
        assert(v + Seq::<OutputModel>::empty() =~= v);
    }
    Some((items, cur))
}

/// Reads `k` witness stacks, one per input.
pub fn read_wstack_list(b: &[u8], pos: usize, k: u64) -> (r: Option<(Vec<Vec<Vec<u8>>>, usize)>)
    ensures
        match r {
            Some((v, p)) => parse_list(b@, pos as int, k as nat, wstack_parser())
                == Some::<(Seq<Seq<Seq<u8>>>, int)>(
                (v@.map_values(|x: Vec<Vec<u8>>| stack_view(x)), p as int),
            ),
            None => parse_list(b@, pos as int, k as nat, wstack_parser()) is None,
        },
{
    let mut items: Vec<Vec<Vec<u8>>> = Vec::new();
    let mut cur = pos;
    let mut i: u64 = 0;
    while i < k
        invariant
            i <= k,
            parse_list(b@, pos as int, k as nat, wstack_parser()) == (match parse_list(
                b@,
                cur as int,
                (k - i) as nat,
                wstack_parser(),
            ) {
                Some((xs, q)) => Some::<(Seq<Seq<Seq<u8>>>, int)>(
                    (items@.map_values(|x: Vec<Vec<u8>>| stack_view(x)) + xs, q),
                ),
                None => None::<(Seq<Seq<Seq<u8>>>, int)>,
            }),
        decreases k - i,
    {
        proof {
            lemma_parse_list_step(b@, cur as int, (k - i) as nat, wstack_parser());
        }
        match read_wstack(b, cur) {
            Some((x, p2)) => {
                let ghost prev = items@.map_values(|t: Vec<Vec<u8>>| stack_view(t));
                let ghost xv = stack_view(x);
                items.push(x);
                cur = p2;
                i = i + 1;
                proof {
                    assert(items@.map_values(|t: Vec<Vec<u8>>| stack_view(t)) =~= prev.push(xv));
                    if parse_list(b@, cur as int, (k - i) as nat, wstack_parser()) is Some {
                        let (xs, q) = parse_list(
                            b@,
                            cur as int,
                            (k - i) as nat,
                            wstack_parser(),
                        ).unwrap();
                        assert(prev.push(xv) + xs =~= prev + (seq![xv] + xs));
                    }
                }
            },
            None => {
                return None;
            },
        }
    }
    proof {
        let v = items@.map_values(|t: Vec<Vec<u8>>| stack_view(t));
        assert(v + Seq::<Seq<Seq<u8>>>::empty() =~= v);
    }
    Some((items, cur))
}

/// Decodes one feed payload. The result is `Some` exactly when the payload
/// is a canonical transaction encoding, and then re-encoding the returned
/// transaction yields the payload.
pub fn decode_transaction(b: &[u8]) -> (r: Option<Transaction>)
    ensures
        match r {
            Some(t) => parse_tx(b@) == Some(t@) && t@.wf() && enc_tx(t@) == b@,
            None => parse_tx(b@) is None,
        },
{
    let (version, p0) = match read_u32le(b, 0) {
        Some(x) => x,
        None => {
            return None;
        },
    };
    let (n0, p1) = match read_varint(b, p0) {
        Some(x) => x,
        None => {
            return None;
        },
    };
    if n0 == 0 {
        if p1 < b.len() && b[p1] == 1 {
            let pf = p1 + 1;
            let (nin, p2) = match read_varint(b, pf) {
                Some(x) => x,
                None => {
                    return None;
                },
            };
            let (ins, p3) = match read_input_list(b, p2, nin) {
                Some(x) => x,
                None => {
                    return None;
                },
            };
            let (nout, p4) = match read_varint(b, p3) {
                Some(x) => x,
                None => {
                    return None;
                },
            };
            let (outs, p5) = match read_output_list(b, p4, nout) {
                Some(x) => x,
                None => {
                    return None;
                },
            };
            let (wits, p6) = match read_wstack_list(b, p5, nin) {
                Some(x) => x,
                None => {
                    return None;
                },
            };
            let (lock, p7) = match read_u32le(b, p6) {
                Some(x) => x,
                None => {
                    return None;
                },
            };
            if p7 == b.len() {
                let t = Transaction {
                    version: version,
                    segwit: true,
                    inputs: ins,
                    outputs: outs,
                    witnesses: wits,
                    locktime: lock,
                };
                proof {
                    assert(parse_tx(b@) == Some(t@));
                    lemma_parse_tx_round_trip(b@, t@);
                }
                Some(t)
            } else {
                None
            }
        } else {
            None
        }
    } else {
        let (ins, p2) = match read_input_list(b, p1, n0) {
            Some(x) => x,
            None => {
                return None;
            },
        };
        let (nout, p3) = match read_varint(b, p2) {
            Some(x) => x,
            None => {
                return None;
            },
        };
        let (outs, p4) = match read_output_list(b, p3, nout) {
            Some(x) => x,
            None => {
                return None;
            },
        };
        let (lock, p5) = match read_u32le(b, p4) {
            Some(x) => x,
            None => {
                return None;
            },
        };
        if p5 == b.len() {
            let t = Transaction {
                version: version,
                segwit: false,
                inputs: ins,
                outputs: outs,
                witnesses: Vec::new(),
                locktime: lock,
            };
            proof {
                assert(t@.witnesses =~= Seq::<Seq<Seq<u8>>>::empty());
                assert(parse_tx(b@) == Some(t@));
                lemma_parse_tx_round_trip(b@, t@);
            }
            Some(t)
        } else {
            None
        }
    }
}

pub fn write_input_bytes(out: &mut Vec<u8>, i: &TxInput)
    ensures
        final(out)@ == old(out)@ + enc_input(i@),
{
    write_raw(out, &i.prev_txid);
    write_u32le(out, i.prev_vout);
    write_chunk(out, &i.script_sig);
    write_u32le(out, i.sequence);
    proof {
        assert(out@ =~= old(out)@ + enc_input(i@));
    }
}

pub fn write_output_bytes(out: &mut Vec<u8>, o: &TxOutput)
    ensures
        final(out)@ == old(out)@ + enc_output(o@),
{
    write_u64le(out, o.value);
    write_chunk(out, &o.script_pubkey);
    proof {
        assert(out@ =~= old(out)@ + enc_output(o@));
    }
}

pub fn write_wstack_bytes(out: &mut Vec<u8>, w: &Vec<Vec<u8>>)
    ensures
        final(out)@ == old(out)@ + enc_wstack(stack_view(*w)),
{
    write_varint(out, w.len() as u64);
    let ghost base = out@;
    let mut j: usize = 0;
    while j < w.len()
        invariant
            j <= w.len(),
            out@ == base + enc_list(stack_view(*w).take(j as int), chunk_enc()),
        decreases w.len() - j,
    {
        let ghost prev = stack_view(*w).take(j as int);
        write_chunk(out, &w[j]);
        proof {
            lemma_enc_list_push(prev, stack_view(*w)[j as int], chunk_enc());
            assert(stack_view(*w).take(j as int + 1) =~= prev.push(stack_view(*w)[j as int]));
        }
        j = j + 1;
    }
    proof {
        assert(stack_view(*w).take(w@.len() as int) =~= stack_view(*w));
        assert(out@ =~= old(out)@ + enc_wstack(stack_view(*w)));
    }
}

/// Re-encodes a transaction into the canonical binary form. Applied to a
/// decoded transaction this returns the exact original payload.
pub fn encode_transaction(t: &Transaction) -> (r: Vec<u8>)
    ensures
        r@ == enc_tx(t@),
{
    let mut out: Vec<u8> = Vec::new();
    write_u32le(&mut out, t.version);
    if t.segwit {
        out.push(0);
        out.push(1);
    }
    proof {
        if t@.segwit {
            assert(out@ =~= (Seq::<u8>::empty() + enc_u32le(t@.version)).push(0u8).push(1u8));
            assert((Seq::<u8>::empty() + enc_u32le(t@.version)).push(0u8).push(1u8) =~= enc_u32le(
                t@.version,
            ) + seq![0u8, 1u8]);
        } else {
            assert(out@ =~= enc_u32le(t@.version) + Seq::<u8>::empty());
        }
    }
    let ghost hdr = enc_u32le(t@.version) + (if t@.segwit {
        seq![0u8, 1u8]
    } else {
        Seq::<u8>::empty()
    });
    write_varint(&mut out, t.inputs.len() as u64);
    let ghost e_nin = hdr + enc_varint(t@.inputs.len() as u64);
    let ghost base1 = out@;
    let mut idx: usize = 0;
    while idx < t.inputs.len()
        invariant
            idx <= t.inputs.len(),
            out@ == base1 + enc_list(t@.inputs.take(idx as int), input_enc()),
            base1 == e_nin,
            t@.inputs.len() == t.inputs@.len(),
        decreases t.inputs.len() - idx,
    {
        let ghost prev = t@.inputs.take(idx as int);
        write_input_bytes(&mut out, &t.inputs[idx]);
        proof {
            lemma_enc_list_push(prev, t@.inputs[idx as int], input_enc());
            assert(t@.inputs.take(idx as int + 1) =~= prev.push(t@.inputs[idx as int]));
        }
        idx = idx + 1;
    }
    proof {
        assert(t@.inputs.take(t.inputs@.len() as int) =~= t@.inputs);
    }
    let ghost e_ins = e_nin + enc_list(t@.inputs, input_enc());
    write_varint(&mut out, t.outputs.len() as u64);
    let ghost e_nout = e_ins + enc_varint(t@.outputs.len() as u64);
    let ghost base2 = out@;
    let mut odx: usize = 0;
    while odx < t.outputs.len()
        invariant
            odx <= t.outputs.len(),
            out@ == base2 + enc_list(t@.outputs.take(odx as int), output_enc()),
            base2 == e_nout,
            t@.outputs.len() == t.outputs@.len(),
        decreases t.outputs.len() - odx,
    {
        let ghost prev = t@.outputs.take(odx as int);
        write_output_bytes(&mut out, &t.outputs[odx]);
        proof {
            lemma_enc_list_push(prev, t@.outputs[odx as int], output_enc());
            assert(t@.outputs.take(odx as int + 1) =~= prev.push(t@.outputs[odx as int]));
        }
        odx = odx + 1;
    }
    proof {
        assert(t@.outputs.take(t.outputs@.len() as int) =~= t@.outputs);
    }
    let ghost e_outs = e_nout + enc_list(t@.outputs, output_enc());
    if t.segwit {
        let ghost base3 = out@;
        let mut wdx: usize = 0;
        while wdx < t.witnesses.len()
            invariant
                wdx <= t.witnesses.len(),
                out@ == base3 + enc_list(t@.witnesses.take(wdx as int), wstack_enc()),
                base3 == e_outs,
                t@.witnesses.len() == t.witnesses@.len(),
            decreases t.witnesses.len() - wdx,
        {
            let ghost prev = t@.witnesses.take(wdx as int);
            write_wstack_bytes(&mut out, &t.witnesses[wdx]);
            proof {
                lemma_enc_list_push(prev, t@.witnesses[wdx as int], wstack_enc());
                assert(t@.witnesses.take(wdx as int + 1) =~= prev.push(
                    t@.witnesses[wdx as int],
                ));
            }
            wdx = wdx + 1;
        }
        proof {
            assert(t@.witnesses.take(t.witnesses@.len() as int) =~= t@.witnesses);
        }
    } else {
        proof {
            assert(out@ =~= e_outs + Seq::<u8>::empty());
        }
    }
    let ghost e_wits = e_outs + (if t@.segwit {
        enc_list(t@.witnesses, wstack_enc())
    } else {
        Seq::<u8>::empty()
    });
    write_u32le(&mut out, t.locktime);
    proof {
        assert(out@ == e_wits + enc_u32le(t@.locktime));
        assert(Seq::<u8>::empty() + enc_u32le(t@.version) =~= enc_u32le(t@.version));
        assert(out@ == enc_tx(t@));
    }
    out
}

/// One feed payload, decoded and identified: the transaction and the
/// display form of its id. It succeeds exactly when both readings of the
/// bytes do: the decode is pinned by `parse_tx`, the id by what the chain
/// library computes for these bytes.
pub fn decode_feed_payload(b: &Vec<u8>) -> (r: Option<(Transaction, String)>)
    ensures
        (r is Some) == (parse_tx(b@) is Some && crate::script::txid_of(b@) is Some),
        r matches Some((t, id)) ==> parse_tx(b@) == Some(t@) && t@.wf() && enc_tx(t@) == b@
            && crate::script::txid_of(b@) == Some(id@),
{
    match decode_transaction(b.as_slice()) {
        Some(t) => match crate::script::payload_txid(b) {
            Some(id) => Some((t, id)),
            None => None,
        },
        None => None,
    }
}

} // verus!
