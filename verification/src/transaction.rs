//! Transactions: parsing, structural checks, and verified insertion into the
//! store.

use crate::buffer::{advances, advances_all, Buffer, EndOfBufferError};
use crate::codec::{
    compact_bytes_at, compact_size_at, lemma_compact_bytes_local, lemma_compact_size_local,
    lemma_repeat_inside, lemma_repeat_local, lemma_repeat_short_stays, moved, reads_locally,
    repeat_at, scan_bytes, scan_i32_le, scan_i64_le, scan_u32_le, shifted, stays_inside, views,
    Scan,
};
use crate::hash::{double_sha256, null_hash, Hash32, Hash32Buf};
use crate::pairs::{index_pairs, lemma_pairs_step, next_pair, pairs_from, pending_pairs};
use crate::store::{Store, StoreView};
use vstd::prelude::*;

verus! {

/// No transaction may be longer than this many bytes.
pub const MAX_TRANSACTION_SIZE: usize = 1_000_000;

/// Why a transaction was rejected.
#[derive(Debug, Clone, Copy, PartialEq, Eq, Structural)]
pub enum TransactionError {
    UnexpectedEndOfData,
    TransactionTooLarge,
    NoInputs,
    NoOutputs,
    DuplicateInputs,
    OutputTransactionNotFound,
    OutputIndexNotFound,
    ScriptError(i32),
}

impl From<EndOfBufferError> for TransactionError {
    fn from(e: EndOfBufferError) -> (r: TransactionError) {
        TransactionError::UnexpectedEndOfData
    }
}

impl vstd::std_specs::convert::FromSpecImpl<EndOfBufferError> for TransactionError {
    open spec fn obeys_from_spec() -> bool {
        true
    }

    open spec fn from_spec(e: EndOfBufferError) -> TransactionError {
        TransactionError::UnexpectedEndOfData
    }
}

/// How a transaction was accepted.
#[derive(Debug, Clone, Copy, PartialEq, Eq, Structural)]
pub enum TransactionOk {
    AlreadyExists,
    VerifiedAndStored,
}

/// What a transaction input says.
pub struct TxInputView {
    pub prev_hash: Seq<u8>,
    pub prev_index: u32,
    pub script: Seq<u8>,
    pub sequence: u32,
}

/// What a transaction output says.
pub struct TxOutputView {
    pub value: i64,
    pub pk_script: Seq<u8>,
}

/// What a transaction says, and the bytes it was read from.
pub struct TransactionView {
    pub version: i32,
    pub inputs: Seq<TxInputView>,
    pub outputs: Seq<TxOutputView>,
    pub lock_time: u32,
    pub raw: Seq<u8>,
}

/// An input on the wire: 32 bytes of previous hash, a `u32` index, a
/// length-prefixed script and a `u32` sequence.
#[verifier::opaque]
pub open spec fn tx_input_at(s: Seq<u8>, at: int) -> Scan<TxInputView> {
    match scan_bytes(s, at, 32) {
        Scan::Short { missing } => Scan::Short { missing },
        Scan::Item { value: prev_hash, next: a1 } => match scan_u32_le(s, a1) {
            Scan::Short { missing } => Scan::Short { missing },
            Scan::Item { value: prev_index, next: a2 } => match compact_bytes_at(s, a2) {
                Scan::Short { missing } => Scan::Short { missing },
                Scan::Item { value: script, next: a3 } => match scan_u32_le(s, a3) {
                    Scan::Short { missing } => Scan::Short { missing },
                    Scan::Item { value: sequence, next: a4 } => Scan::Item {
                        value: TxInputView { prev_hash, prev_index, script, sequence },
                        next: a4,
                    },
                },
            },
        },
    }
}

/// An output on the wire: an `i64` value and a length-prefixed script.
#[verifier::opaque]
pub open spec fn tx_output_at(s: Seq<u8>, at: int) -> Scan<TxOutputView> {
    match scan_i64_le(s, at) {
        Scan::Short { missing } => Scan::Short { missing },
        Scan::Item { value, next: a1 } => match compact_bytes_at(s, a1) {
            Scan::Short { missing } => Scan::Short { missing },
            Scan::Item { value: pk_script, next: a2 } => Scan::Item {
                value: TxOutputView { value, pk_script },
                next: a2,
            },
        },
    }
}

/// The reader of one input, as a value.
pub open spec fn input_item() -> spec_fn(Seq<u8>, int) -> Scan<TxInputView> {
    |s: Seq<u8>, at: int| tx_input_at(s, at)
}

/// The reader of one output, as a value.
pub open spec fn output_item() -> spec_fn(Seq<u8>, int) -> Scan<TxOutputView> {
    |s: Seq<u8>, at: int| tx_output_at(s, at)
}

/// A transaction on the wire: version, counted inputs, counted outputs, lock
/// time. Its raw bytes are exactly the span that was read.
#[verifier::opaque]
pub open spec fn transaction_at(s: Seq<u8>, at: int) -> Scan<TransactionView> {
    match scan_i32_le(s, at) {
        Scan::Short { missing } => Scan::Short { missing },
        Scan::Item { value: version, next: a1 } => match compact_size_at(s, a1) {
            Scan::Short { missing } => Scan::Short { missing },
            Scan::Item { value: n_in, next: a2 } => match repeat_at(
                input_item(),
                s,
                a2,
                n_in as nat,
            ) {
                Scan::Short { missing } => Scan::Short { missing },
                Scan::Item { value: inputs, next: a3 } => match compact_size_at(s, a3) {
                    Scan::Short { missing } => Scan::Short { missing },
                    Scan::Item { value: n_out, next: a4 } => match repeat_at(
                        output_item(),
                        s,
                        a4,
                        n_out as nat,
                    ) {
                        Scan::Short { missing } => Scan::Short { missing },
                        Scan::Item { value: outputs, next: a5 } => match scan_u32_le(s, a5) {
                            Scan::Short { missing } => Scan::Short { missing },
                            Scan::Item { value: lock_time, next: a6 } => Scan::Item {
                                value: TransactionView {
                                    version,
                                    inputs,
                                    outputs,
                                    lock_time,
                                    raw: s.subrange(at, a6),
                                },
                                next: a6,
                            },
                        },
                    },
                },
            },
        },
    }
}

/// Two inputs name the same previous output: the same hash and index.
pub open spec fn same_outpoint(a: TxInputView, b: TxInputView) -> bool {
    a.prev_index == b.prev_index && a.prev_hash == b.prev_hash
}

/// Two of the inputs spend the same output.
pub open spec fn has_duplicate_inputs(inputs: Seq<TxInputView>) -> bool {
    exists|i: int, j: int|
        0 <= i < j < inputs.len() && same_outpoint(#[trigger] inputs[i], #[trigger] inputs[j])
}

/// The structural checks, in the order in which they are made: size, inputs,
/// outputs, duplicate inputs.
pub open spec fn syntax_verdict(tx: TransactionView) -> Result<(), TransactionError> {
    if tx.raw.len() > MAX_TRANSACTION_SIZE {
        Err(TransactionError::TransactionTooLarge)
    } else if tx.inputs.len() == 0 {
        Err(TransactionError::NoInputs)
    } else if tx.outputs.len() == 0 {
        Err(TransactionError::NoOutputs)
    } else if has_duplicate_inputs(tx.inputs) {
        Err(TransactionError::DuplicateInputs)
    } else {
        Ok(())
    }
}

/// A coinbase has exactly one input, and that input's previous hash is null.
/// The previous index is not looked at.
pub open spec fn is_coinbase(tx: TransactionView) -> bool {
    tx.inputs.len() == 1 && tx.inputs[0].prev_hash == null_hash()
}

/// The script of the output that `input` spends, as the store has it, or the
/// reason why the store cannot give it.
pub open spec fn spent_output(store: StoreView, input: TxInputView) -> Result<
    Seq<u8>,
    TransactionError,
> {
    if !store.index.contains_key(input.prev_hash) {
        Err(TransactionError::OutputTransactionNotFound)
    } else {
        match transaction_at(store.content[store.index[input.prev_hash] as int], 0) {
            Scan::Short { missing } => Err(TransactionError::UnexpectedEndOfData),
            Scan::Item { value, next } => if input.prev_index < value.outputs.len() {
                Ok(value.outputs[input.prev_index as int].pk_script)
            } else {
                Err(TransactionError::OutputIndexNotFound)
            },
        }
    }
}

/// `code` is a result that the script verifier may give for the spending
/// transaction `tx`, the output script `pk`, the input number `index` and no
/// flags.
pub open spec fn script_call<F: Fn(&[u8], &[u8], u32, u32) -> i32>(
    verifier: F,
    tx: Seq<u8>,
    pk: Seq<u8>,
    index: u32,
    code: i32,
) -> bool {
    exists|t: &[u8], p: &[u8]|
        t@ == tx && p@ == pk && #[trigger] verifier.ensures((t, p, index, 0u32), code)
}

/// Input `k` spends an output that the store has, and the script verifier
/// accepted it.
pub open spec fn input_passes<F: Fn(&[u8], &[u8], u32, u32) -> i32>(
    verifier: F,
    tx: TransactionView,
    store: StoreView,
    k: int,
) -> bool {
    spent_output(store, tx.inputs[k]) matches Ok(pk) && script_call(
        verifier,
        tx.raw,
        pk,
        k as u32,
        1,
    )
}

/// Input `k` fails with `e`: the store cannot give the output it spends, or
/// the script verifier returned a code other than 1.
pub open spec fn input_fails<F: Fn(&[u8], &[u8], u32, u32) -> i32>(
    verifier: F,
    tx: TransactionView,
    store: StoreView,
    k: int,
    e: TransactionError,
) -> bool {
    match spent_output(store, tx.inputs[k]) {
        Err(x) => e == x,
        Ok(pk) => exists|code: i32|
            code != 1 && #[trigger] script_call(verifier, tx.raw, pk, k as u32, code) && e
                == TransactionError::ScriptError(code),
    }
}

/// The inputs are checked in order: success means that every input passes,
/// an error is that of the first input that fails.
pub open spec fn inputs_outcome<F: Fn(&[u8], &[u8], u32, u32) -> i32>(
    verifier: F,
    tx: TransactionView,
    store: StoreView,
    r: Result<(), TransactionError>,
) -> bool {
    match r {
        Ok(_) => forall|k: int|
            0 <= k < tx.inputs.len() ==> #[trigger] input_passes(verifier, tx, store, k),
        Err(e) => exists|k: int|
            0 <= k < tx.inputs.len() && #[trigger] input_fails(verifier, tx, store, k, e) && forall|
                j: int,
            |
                0 <= j < k ==> #[trigger] input_passes(verifier, tx, store, j),
    }
}

/// What verifying and storing `tx` does to a store and returns: a rejection
/// and a transaction that is already there leave the store as it was; a new
/// one is appended and indexed by its hash, a coinbase without a look at its
/// input, any other once every input has passed.
pub open spec fn store_outcome<F: Fn(&[u8], &[u8], u32, u32) -> i32>(
    verifier: F,
    tx: TransactionView,
    before: StoreView,
    r: Result<TransactionOk, TransactionError>,
    after: StoreView,
) -> bool {
    match syntax_verdict(tx) {
        Err(e) => r == Err::<TransactionOk, TransactionError>(e) && after == before,
        Ok(_) => if before.index.contains_key(double_sha256(tx.raw)) {
            r == Ok::<TransactionOk, TransactionError>(TransactionOk::AlreadyExists) && after
                == before
        } else if is_coinbase(tx) {
            r == Ok::<TransactionOk, TransactionError>(TransactionOk::VerifiedAndStored) && after
                == before.with_transaction(tx.raw)
        } else {
            match r {
                Ok(ok) => ok == TransactionOk::VerifiedAndStored && after
                    == before.with_transaction(tx.raw) && inputs_outcome(
                    verifier,
                    tx,
                    before,
                    Ok(()),
                ),
                Err(e) => after == before && inputs_outcome(verifier, tx, before, Err(e)),
            }
        },
    }
}

/// A transaction input. It borrows from the bytes it was parsed from.
#[derive(Debug, Clone, Copy)]
pub struct TxInput<'a> {
    prev_tx_out: Hash32<'a>,
    prev_tx_out_idx: u32,
    script: &'a [u8],
    sequence: u32,
}

impl<'a> View for TxInput<'a> {
    type V = TxInputView;

    closed spec fn view(&self) -> TxInputView {
        TxInputView {
            prev_hash: self.prev_tx_out@,
            prev_index: self.prev_tx_out_idx,
            script: self.script@,
            sequence: self.sequence,
        }
    }
}

impl<'a> TxInput<'a> {
    /// Reads one input at the cursor.
    pub fn parse(buffer: &mut Buffer<'a>) -> (r: Result<TxInput<'a>, EndOfBufferError>)
        ensures
            old(buffer).inside(),
            final(buffer).inside(),
            final(buffer).bytes() == old(buffer).bytes(),
            advances(r, tx_input_at(old(buffer).bytes(), old(buffer).cursor()), final(buffer).cursor()),
    {
        proof {
            reveal(tx_input_at);
        }
        let hash_bytes = buffer.parse_bytes(32)?;
        assert(hash_bytes@.len() == 32);
        let prev_tx_out_idx = buffer.parse_u32()?;
        let script = buffer.parse_compact_size_bytes()?;
        let sequence = buffer.parse_u32()?;
        Ok(TxInput { prev_tx_out: Hash32::new(hash_bytes), prev_tx_out_idx, script, sequence })
    }

    /// The hash of the transaction whose output this input spends.
    pub fn prev_hash(&self) -> (r: Hash32<'a>)
        ensures
            r@ == self@.prev_hash,
    {
        self.prev_tx_out
    }

    /// The index of the output that this input spends.
    pub fn prev_index(&self) -> (r: u32)
        ensures
            r == self@.prev_index,
    {
        self.prev_tx_out_idx
    }

    /// The signature script.
    pub fn script(&self) -> (r: &'a [u8])
        ensures
            r@ == self@.script,
    {
        self.script
    }

    /// The sequence number.
    pub fn sequence(&self) -> (r: u32)
        ensures
            r == self@.sequence,
    {
        self.sequence
    }

    /// Whether two inputs spend the same output.
    pub fn same_outpoint(&self, other: &TxInput<'_>) -> (r: bool)
        ensures
            r == same_outpoint(self@, other@),
    {
        self.prev_tx_out_idx == other.prev_tx_out_idx && self.prev_tx_out.same_as(
            &other.prev_tx_out,
        )
    }
}

/// A transaction output. It borrows from the bytes it was parsed from.
#[derive(Debug, Clone, Copy)]
pub struct TxOutput<'a> {
    value: i64,
    pk_script: &'a [u8],
}

impl<'a> View for TxOutput<'a> {
    type V = TxOutputView;

    closed spec fn view(&self) -> TxOutputView {
        TxOutputView { value: self.value, pk_script: self.pk_script@ }
    }
}

impl<'a> TxOutput<'a> {
    /// Reads one output at the cursor.
    pub fn parse(buffer: &mut Buffer<'a>) -> (r: Result<TxOutput<'a>, EndOfBufferError>)
        ensures
            old(buffer).inside(),
            final(buffer).inside(),
            final(buffer).bytes() == old(buffer).bytes(),
            advances(
                r,
                tx_output_at(old(buffer).bytes(), old(buffer).cursor()),
                final(buffer).cursor(),
            ),
    {
        proof {
            reveal(tx_output_at);
        }
        let value = buffer.parse_i64()?;
        let pk_script = buffer.parse_compact_size_bytes()?;
        Ok(TxOutput { value, pk_script })
    }

    /// The value in satoshis, as it stands on the wire.
    pub fn value(&self) -> (r: i64)
        ensures
            r == self@.value,
    {
        self.value
    }

    /// The public-key script.
    pub fn pk_script(&self) -> (r: &'a [u8])
        ensures
            r@ == self@.pk_script,
    {
        self.pk_script
    }
}

/// Reads `count` inputs, one after the other.
pub fn parse_inputs<'a>(buffer: &mut Buffer<'a>, count: u64) -> (r: Result<
    Vec<TxInput<'a>>,
    EndOfBufferError,
>)
    ensures
        old(buffer).inside(),
        final(buffer).inside(),
        final(buffer).bytes() == old(buffer).bytes(),
        advances_all(
            r,
            repeat_at(input_item(), old(buffer).bytes(), old(buffer).cursor(), count as nat),
            final(buffer).cursor(),
        ),
{
    let ghost s = buffer.bytes();
    let start = buffer.position();
    let mut items: Vec<TxInput<'a>> = Vec::new();
    let mut k: u64 = 0;
    assert(views(items@) =~= Seq::empty());
    while k < count
        invariant
            k <= count,
            buffer.bytes() == s,
            s == old(buffer).bytes(),
            start == old(buffer).cursor(),
            old(buffer).inside(),
            buffer.inside(),
            repeat_at(input_item(), s, start as int, k as nat) == (Scan::Item {
                value: views(items@),
                next: buffer.cursor(),
            }),
        decreases count - k,
    {
        match TxInput::parse(buffer) {
            Ok(item) => {
                assert(views(items@.push(item)) =~= views(items@).push(item@));
                items.push(item);
                k += 1;
            },
            Err(e) => {
                proof {
                    assert(repeat_at(input_item(), s, start as int, (k + 1) as nat) is Short);
                    lemma_repeat_short_stays(input_item(), s, start as int, (k + 1) as nat, count as nat);
                }
                return Err(e);
            },
        }
    }
    Ok(items)
}

/// Reads `count` outputs, one after the other.
pub fn parse_outputs<'a>(buffer: &mut Buffer<'a>, count: u64) -> (r: Result<
    Vec<TxOutput<'a>>,
    EndOfBufferError,
>)
    ensures
        old(buffer).inside(),
        final(buffer).inside(),
        final(buffer).bytes() == old(buffer).bytes(),
        advances_all(
            r,
            repeat_at(output_item(), old(buffer).bytes(), old(buffer).cursor(), count as nat),
            final(buffer).cursor(),
        ),
{
    let ghost s = buffer.bytes();
    let start = buffer.position();
    let mut items: Vec<TxOutput<'a>> = Vec::new();
    let mut k: u64 = 0;
    assert(views(items@) =~= Seq::empty());
    while k < count
        invariant
            k <= count,
            buffer.bytes() == s,
            s == old(buffer).bytes(),
            start == old(buffer).cursor(),
            old(buffer).inside(),
            buffer.inside(),
            repeat_at(output_item(), s, start as int, k as nat) == (Scan::Item {
                value: views(items@),
                next: buffer.cursor(),
            }),
        decreases count - k,
    {
        match TxOutput::parse(buffer) {
            Ok(item) => {
                assert(views(items@.push(item)) =~= views(items@).push(item@));
                items.push(item);
                k += 1;
            },
            Err(e) => {
                proof {
                    assert(repeat_at(output_item(), s, start as int, (k + 1) as nat) is Short);
                    lemma_repeat_short_stays(output_item(), s, start as int, (k + 1) as nat, count as nat);
                }
                return Err(e);
            },
        }
    }
    Ok(items)
}

/// A parsed transaction. It keeps the bytes it was parsed from: they are what
/// is hashed, stored and handed to the script verifier.
#[derive(Debug)]
pub struct Transaction<'a> {
    pub version: i32,
    pub txs_in: Vec<TxInput<'a>>,
    pub txs_out: Vec<TxOutput<'a>>,
    pub lock_time: u32,
    raw: &'a [u8],
}

impl<'a> View for Transaction<'a> {
    type V = TransactionView;

    closed spec fn view(&self) -> TransactionView {
        TransactionView {
            version: self.version,
            inputs: views(self.txs_in@),
            outputs: views(self.txs_out@),
            lock_time: self.lock_time,
            raw: self.raw@,
        }
    }
}

impl<'a> Transaction<'a> {
    /// The fields are what the raw bytes say, and the raw bytes hold nothing
    /// else.
    pub open spec fn wf(&self) -> bool {
        transaction_at(self@.raw, 0) == (Scan::Item { value: self@, next: self@.raw.len() as int })
    }

    /// Reads one transaction at the cursor.
    #[verifier::rlimit(40)]
    pub fn parse(buffer: &mut Buffer<'a>) -> (r: Result<Transaction<'a>, EndOfBufferError>)
        ensures
            old(buffer).inside(),
            final(buffer).inside(),
            final(buffer).bytes() == old(buffer).bytes(),
            advances(
                r,
                transaction_at(old(buffer).bytes(), old(buffer).cursor()),
                final(buffer).cursor(),
            ),
            r matches Ok(tx) ==> tx.wf(),
    {
        proof {
            reveal(transaction_at);
        }
        let org_buffer = *buffer;
        let version = buffer.parse_i32()?;
        let n_in = buffer.parse_compact_size()?;
        let txs_in = parse_inputs(buffer, n_in)?;
        let n_out = buffer.parse_compact_size()?;
        let txs_out = parse_outputs(buffer, n_out)?;
        let lock_time = buffer.parse_u32()?;
        proof {
            lemma_transaction_inside(buffer.bytes(), org_buffer.cursor());
        }
        let raw = buffer.consumed_since(org_buffer);
        let tx = Transaction { version, txs_in, txs_out, lock_time, raw };
        proof {
            lemma_transaction_at_span(buffer.bytes(), org_buffer.cursor());
        }
        Ok(tx)
    }

    /// The version.
    pub fn version(&self) -> (r: i32)
        ensures
            r == self@.version,
    {
        self.version
    }

    /// The inputs, in order.
    pub fn inputs(&self) -> (r: &Vec<TxInput<'a>>)
        ensures
            views(r@) == self@.inputs,
    {
        &self.txs_in
    }

    /// The outputs, in order.
    pub fn outputs(&self) -> (r: &Vec<TxOutput<'a>>)
        ensures
            views(r@) == self@.outputs,
    {
        &self.txs_out
    }

    /// The lock time.
    pub fn lock_time(&self) -> (r: u32)
        ensures
            r == self@.lock_time,
    {
        self.lock_time
    }

    /// The bytes this transaction was parsed from.
    pub fn to_raw(&self) -> (r: &'a [u8])
        ensures
            r@ == self@.raw,
    {
        self.raw
    }

    /// The double SHA-256 of the raw bytes: the transaction's identity.
    pub fn hash(&self) -> (r: Hash32Buf)
        ensures
            r@ == double_sha256(self@.raw),
    {
        Hash32Buf::double_sha256(self.raw)
    }

    /// Performs the structural checks.
    pub fn verify_syntax(&self) -> (r: Result<(), TransactionError>)
        ensures
            r == syntax_verdict(self@),
    {
        if self.raw.len() > MAX_TRANSACTION_SIZE {
            return Err(TransactionError::TransactionTooLarge);
        }
        if self.txs_in.len() == 0 {
            return Err(TransactionError::NoInputs);
        }
        if self.txs_out.len() == 0 {
            return Err(TransactionError::NoOutputs);
        }
        if any_duplicate_inputs(&self.txs_in) {
            return Err(TransactionError::DuplicateInputs);
        }
        Ok(())
    }

    /// Whether this is a coinbase.
    pub fn is_coinbase(&self) -> (r: bool)
        ensures
            r == is_coinbase(self@),
    {
        self.txs_in.len() == 1 && self.txs_in[0].prev_tx_out.is_null()
    }

    /// Checks the transaction and, if it is new and valid, appends it to the
    /// store and indexes it by its hash.
    #[verifier::rlimit(40)]
    pub fn verify_and_store<F: Fn(&[u8], &[u8], u32, u32) -> i32>(
        &self,
        store: &mut Store,
        verifier: F,
    ) -> (r: Result<TransactionOk, TransactionError>)
        requires
            self.wf(),
            old(store)@.wf(),
            forall|tx: &[u8], pk: &[u8], index: u32, flags: u32|
                verifier.requires((tx, pk, index, flags)),
        ensures
            final(store)@.wf(),
            store_outcome(verifier, self@, old(store)@, r, final(store)@),
    {
        match self.verify_syntax() {
            Err(e) => {
                return Err(e);
            },
            Ok(_) => {},
        }
        let hash_buf = self.hash();
        if store.index.get(hash_buf.as_ref()).is_some() {
            return Ok(TransactionOk::AlreadyExists);
        }
        if !self.is_coinbase() {
            match self.verify_input_scripts(store, verifier) {
                Err(e) => {
                    return Err(e);
                },
                Ok(_) => {},
            }
        }
        let ptr = store.block_content.write(self.raw);
        store.index.set(hash_buf.as_ref(), ptr);
        proof {
            let before = old(store)@;
            let after = store@;
            assert(after == before.with_transaction(self@.raw));
            assert forall|h: Seq<u8>| #[trigger] after.index.contains_key(h) implies {
                &&& after.index[h] < after.content.len()
                &&& crate::store::holds_transaction(after.content[after.index[h] as int])
                &&& double_sha256(after.content[after.index[h] as int]) == h
                &&& after.content[after.index[h] as int].len() <= MAX_TRANSACTION_SIZE
            } by {
                if h != double_sha256(self@.raw) {
                    assert(before.index.contains_key(h));
                }
            }
        }
        Ok(TransactionOk::VerifiedAndStored)
    }

    /// Checks every input, in order, against the output it spends: the store
    /// must hold the transaction and the output, and the script verifier
    /// must return 1 for the pair. The store is only read.
    #[verifier::rlimit(40)]
    pub fn verify_input_scripts<F: Fn(&[u8], &[u8], u32, u32) -> i32>(
        &self,
        store: &mut Store,
        verifier: F,
    ) -> (r: Result<(), TransactionError>)
        requires
            old(store)@.wf(),
            forall|tx: &[u8], pk: &[u8], index: u32, flags: u32|
                verifier.requires((tx, pk, index, flags)),
        ensures
            *final(store) == *old(store),
            inputs_outcome(verifier, self@, old(store)@, r),
    {
        let count = self.txs_in.len();
        let mut k: usize = 0;
        while k < count
            invariant
                k <= count,
                count == self.txs_in@.len(),
                *store == *old(store),
                store@.wf(),
                forall|tx: &[u8], pk: &[u8], index: u32, flags: u32|
                    verifier.requires((tx, pk, index, flags)),
                forall|j: int| 0 <= j < k ==> #[trigger] input_passes(verifier, self@, store@, j),
            decreases count - k,
        {
            let input = &self.txs_in[k];
            assert(self@.inputs[k as int] == input@);
            let pk_script = match find_spent_output(store, input) {
                Err(e) => {
                    assert(input_fails(verifier, self@, store@, k as int, e));
                    return Err(e);
                },
                Ok(pk_script) => pk_script,
            };
            let index = #[verifier::truncate]
            (k as u32);
            let code = verifier(self.raw, pk_script, index, 0);
            assert(script_call(verifier, self@.raw, pk_script@, k as int as u32, code));
            match script_verdict(code) {
                Err(e) => {
                    assert(input_fails(verifier, self@, store@, k as int, e));
                    return Err(e);
                },
                Ok(_) => {},
            }
            assert(input_passes(verifier, self@, store@, k as int));
            k += 1;
        }
        Ok(())
    }
}

/// Looks up the output that `input` spends: the store must index the
/// previous transaction, and that transaction must have the output.
#[verifier::rlimit(40)]
pub fn find_spent_output<'s>(store: &'s Store, input: &TxInput<'_>) -> (r: Result<
    &'s [u8],
    TransactionError,
>)
    requires
        store@.wf(),
    ensures
        match spent_output(store@, input@) {
            Ok(pk) => r matches Ok(got) && got@ == pk,
            Err(e) => r matches Err(x) && x == e,
        },
{
    let ptr = match store.index.get(input.prev_tx_out) {
        None => {
            return Err(TransactionError::OutputTransactionNotFound);
        },
        Some(ptr) => ptr,
    };
    assert(store@.index.contains_key(input@.prev_hash));
    let mut previous_tx_raw = Buffer::new(store.block_content.read(ptr));
    let previous_tx = match Transaction::parse(&mut previous_tx_raw) {
        Err(e) => {
            return Err(TransactionError::from(e));
        },
        Ok(tx) => tx,
    };
    let out_idx = input.prev_tx_out_idx as usize;
    if out_idx >= previous_tx.txs_out.len() {
        return Err(TransactionError::OutputIndexNotFound);
    }
    let pk_script = previous_tx.txs_out[out_idx].pk_script;
    assert(previous_tx@.outputs[out_idx as int] == previous_tx.txs_out@[out_idx as int]@);
    Ok(pk_script)
}

/// What the script verifier's result means: 1 is success, any other value
/// is passed on as the error code.
pub fn script_verdict(code: i32) -> (r: Result<(), TransactionError>)
    ensures
        r == if code == 1 {
            Ok::<(), TransactionError>(())
        } else {
            Err::<(), TransactionError>(TransactionError::ScriptError(code))
        },
{
    if code == 1 {
        Ok(())
    } else {
        Err(TransactionError::ScriptError(code))
    }
}

/// Whether two of the inputs spend the same output. Every pair of inputs is
/// compared, in lexicographic order of the pairs, up to the first match.
pub fn any_duplicate_inputs(inputs: &Vec<TxInput<'_>>) -> (r: bool)
    ensures
        r == has_duplicate_inputs(views(inputs@)),
{
    let n = inputs.len();
    let mut it = index_pairs(n);
    let ghost mut i: int = 0;
    let ghost mut j: int = 1;
    loop
        invariant
            n == inputs@.len(),
            0 <= i < j,
            i + 1 >= n || j < n,
            pending_pairs(it) == pairs_from(i, j, n as int),
            forall|a: int, b: int|
                0 <= a < b < n && (a < i || (a == i && b < j)) ==> !same_outpoint(
                    #[trigger] views(inputs@)[a],
                    #[trigger] views(inputs@)[b],
                ),
        decreases pending_pairs(it).len(),
    {
        proof {
            if i + 1 < n {
                lemma_pairs_step(i, j, n as int);
            }
        }
        match next_pair(&mut it) {
            None => {
                return false;
            },
            Some((a, b)) => {
                if inputs[a].same_outpoint(&inputs[b]) {
                    assert(same_outpoint(views(inputs@)[a as int], views(inputs@)[b as int]));
                    return true;
                }
                proof {
                    if j + 1 < n {
                        j = j + 1;
                    } else {
                        i = i + 1;
                        j = i + 1;
                    }
                }
            },
        }
    }
}

/// An input that is found in `s` ends inside `s`, and is found again in
/// `t` if its bytes stand there too, `d` places further on.
#[verifier::rlimit(40)]
pub proof fn lemma_tx_input_local(s: Seq<u8>, t: Seq<u8>, d: int, at: int)
    requires
        0 <= at <= s.len(),
        tx_input_at(s, at) is Item,
    ensures
        at <= tx_input_at(s, at)->next <= s.len(),
        shifted(s, t, at, tx_input_at(s, at)->next, d) ==> tx_input_at(t, at + d) == moved(
            tx_input_at(s, at),
            d,
        ),
{
    reveal(tx_input_at);
    let a1 = at + 32;
    let a2 = a1 + 4;
    lemma_compact_bytes_local(s, t, d, a2);
    let a3 = compact_bytes_at(s, a2)->next;
    if shifted(s, t, at, tx_input_at(s, at)->next, d) {
        assert(shifted(s, t, a2, a3, d));
        assert(s.subrange(at, a1) =~= t.subrange(at + d, a1 + d));
    }
}

/// An output that is found in `s` ends inside `s`, and is found again in
/// `t` if its bytes stand there too, `d` places further on.
#[verifier::rlimit(40)]
pub proof fn lemma_tx_output_local(s: Seq<u8>, t: Seq<u8>, d: int, at: int)
    requires
        0 <= at <= s.len(),
        tx_output_at(s, at) is Item,
    ensures
        at <= tx_output_at(s, at)->next <= s.len(),
        shifted(s, t, at, tx_output_at(s, at)->next, d) ==> tx_output_at(t, at + d) == moved(
            tx_output_at(s, at),
            d,
        ),
{
    reveal(tx_output_at);
    let a1 = at + 8;
    lemma_compact_bytes_local(s, t, d, a1);
    let a2 = compact_bytes_at(s, a1)->next;
    if shifted(s, t, at, tx_output_at(s, at)->next, d) {
        assert(shifted(s, t, a1, a2, d));
    }
}

/// Inputs and outputs both end inside the bytes they are read from, and are
/// found again wherever their bytes stand.
pub proof fn lemma_items_local(s: Seq<u8>, t: Seq<u8>, d: int)
    ensures
        stays_inside(input_item(), s),
        reads_locally(input_item(), s, t, d),
        stays_inside(output_item(), s),
        reads_locally(output_item(), s, t, d),
{
    assert forall|a: int| 0 <= a <= s.len() && (#[trigger] input_item()(s, a)) is Item implies a
        <= input_item()(s, a)->next <= s.len() && (shifted(s, t, a, input_item()(s, a)->next, d)
        ==> input_item()(t, a + d) == moved(input_item()(s, a), d)) by {
        lemma_tx_input_local(s, t, d, a);
    }
    assert forall|a: int| 0 <= a <= s.len() && (#[trigger] output_item()(s, a)) is Item implies a
        <= output_item()(s, a)->next <= s.len() && (shifted(s, t, a, output_item()(s, a)->next, d)
        ==> output_item()(t, a + d) == moved(output_item()(s, a), d)) by {
        lemma_tx_output_local(s, t, d, a);
    }
}

/// Where the parts of a transaction that is found at `at` begin and end: the
/// offsets after the input count, the inputs, the output count and the
/// outputs.
pub open spec fn transaction_stages(s: Seq<u8>, at: int) -> (int, int, int, int) {
    let a2 = compact_size_at(s, at + 4)->next;
    let a3 = repeat_at(input_item(), s, a2, compact_size_at(s, at + 4)->value as nat)->next;
    let a4 = compact_size_at(s, a3)->next;
    let a5 = repeat_at(output_item(), s, a4, compact_size_at(s, a3)->value as nat)->next;
    (a2, a3, a4, a5)
}

/// A transaction that is found in `s` ends inside `s`, and so does each of
/// its parts, one after the other.
#[verifier::rlimit(40)]
pub proof fn lemma_transaction_inside(s: Seq<u8>, at: int)
    requires
        0 <= at <= s.len(),
        transaction_at(s, at) is Item,
    ensures
        ({
            let (a2, a3, a4, a5) = transaction_stages(s, at);
            &&& at + 4 < a2 <= a3 < a4 <= a5
            &&& a5 + 4 <= s.len()
            &&& transaction_at(s, at)->next == a5 + 4
            &&& transaction_at(s, at)->value.raw == s.subrange(at, a5 + 4)
            &&& compact_size_at(s, at + 4) is Item
            &&& compact_size_at(s, a3) is Item
            &&& repeat_at(input_item(), s, a2, compact_size_at(s, at + 4)->value as nat) is Item
            &&& repeat_at(output_item(), s, a4, compact_size_at(s, a3)->value as nat) is Item
        }),
{
    reveal(transaction_at);
    let (a2, a3, a4, a5) = transaction_stages(s, at);
    lemma_items_local(s, s, 0);
    lemma_repeat_inside(input_item(), s, a2, compact_size_at(s, at + 4)->value as nat);
    lemma_repeat_inside(output_item(), s, a4, compact_size_at(s, a3)->value as nat);
}

/// A transaction that is found in `s` is found again in `t` if its bytes
/// stand there too, `d` places further on.
#[verifier::rlimit(40)]
pub proof fn lemma_transaction_local(s: Seq<u8>, t: Seq<u8>, d: int, at: int)
    requires
        0 <= at <= s.len(),
        transaction_at(s, at) is Item,
        shifted(s, t, at, transaction_at(s, at)->next, d),
    ensures
        transaction_at(t, at + d) == moved(transaction_at(s, at), d),
{
    reveal(transaction_at);
    lemma_transaction_inside(s, at);
    let (a2, a3, a4, a5) = transaction_stages(s, at);
    let a1 = at + 4;
    let a6 = a5 + 4;
    let n_in = compact_size_at(s, a1)->value as nat;
    let n_out = compact_size_at(s, a3)->value as nat;
    let ins = repeat_at(input_item(), s, a2, n_in);
    let outs = repeat_at(output_item(), s, a4, n_out);
    assert(scan_i32_le(t, at + d) == moved(scan_i32_le(s, at), d));
    assert(compact_size_at(t, a1 + d) == moved(compact_size_at(s, a1), d)) by {
        assert(shifted(s, t, a1, a2, d));
        lemma_compact_size_local(s, t, d, a1);
    }
    assert(repeat_at(input_item(), t, a2 + d, n_in) == moved(ins, d)) by {
        assert(shifted(s, t, a2, a3, d));
        lemma_items_local(s, t, d);
        lemma_repeat_local(input_item(), s, t, d, a2, n_in);
    }
    assert(compact_size_at(t, a3 + d) == moved(compact_size_at(s, a3), d)) by {
        assert(shifted(s, t, a3, a4, d));
        lemma_compact_size_local(s, t, d, a3);
    }
    assert(repeat_at(output_item(), t, a4 + d, n_out) == moved(outs, d)) by {
        assert(shifted(s, t, a4, a5, d));
        lemma_items_local(s, t, d);
        lemma_repeat_local(output_item(), s, t, d, a4, n_out);
    }
    assert(scan_u32_le(t, a5 + d) == moved(scan_u32_le(s, a5), d));
    assert(s.subrange(at, a6) =~= t.subrange(at + d, a6 + d));
}

/// A transaction reads the same from its own span as from the bytes around
/// it.
#[verifier::rlimit(40)]
pub proof fn lemma_transaction_at_span(s: Seq<u8>, at: int)
    requires
        0 <= at <= s.len(),
        transaction_at(s, at) is Item,
    ensures
        ({
            let tx = transaction_at(s, at)->value;
            transaction_at(tx.raw, 0) == (Scan::Item { value: tx, next: tx.raw.len() as int })
        }),
{
    lemma_transaction_inside(s, at);
    let end = transaction_at(s, at)->next;
    let raw = s.subrange(at, end);
    assert(shifted(s, raw, at, end, -at));
    lemma_transaction_local(s, raw, -at, at);
}

/// Round trip: where `b` is one transaction from its first byte to its last,
/// the raw bytes of the parsed transaction are `b`.
pub proof fn lemma_parse_round_trip(b: Seq<u8>)
    requires
        crate::store::holds_transaction(b),
    ensures
        transaction_at(b, 0)->value.raw == b,
{
    reveal(transaction_at);
    assert(b.subrange(0, b.len() as int) =~= b);
}

/// Hash stability: the hash of a transaction parsed from `b` is the double
/// SHA-256 of `b`.
pub proof fn lemma_hash_of_parsed(b: Seq<u8>)
    requires
        crate::store::holds_transaction(b),
    ensures
        double_sha256(transaction_at(b, 0)->value.raw) == double_sha256(b),
{
    lemma_parse_round_trip(b);
}

/// Store idempotence: where verifying and storing a transaction has
/// succeeded, doing it again reports that the transaction already exists and
/// leaves the store as it was, whatever script verifier is used.
pub proof fn lemma_store_twice<
    F: Fn(&[u8], &[u8], u32, u32) -> i32,
    G: Fn(&[u8], &[u8], u32, u32) -> i32,
>(
    first: F,
    second: G,
    tx: TransactionView,
    s0: StoreView,
    r1: Result<TransactionOk, TransactionError>,
    s1: StoreView,
    r2: Result<TransactionOk, TransactionError>,
    s2: StoreView,
)
    requires
        store_outcome(first, tx, s0, r1, s1),
        r1 is Ok,
        store_outcome(second, tx, s1, r2, s2),
    ensures
        r2 == Ok::<TransactionOk, TransactionError>(TransactionOk::AlreadyExists),
        s2 == s1,
{
    assert(s1.index.contains_key(double_sha256(tx.raw)));
}

/// Duplicate-input detection: a transaction of admissible size with an
/// output and two inputs that spend the same output is rejected for its
/// duplicate inputs.
pub proof fn lemma_duplicate_inputs_rejected(tx: TransactionView, i: int, j: int)
    requires
        tx.raw.len() <= MAX_TRANSACTION_SIZE,
        tx.outputs.len() > 0,
        0 <= i < tx.inputs.len(),
        0 <= j < tx.inputs.len(),
        i != j,
        same_outpoint(tx.inputs[i], tx.inputs[j]),
    ensures
        syntax_verdict(tx) == Err::<(), TransactionError>(TransactionError::DuplicateInputs),
{
    if i < j {
        assert(same_outpoint(tx.inputs[i], tx.inputs[j]));
    } else {
        assert(same_outpoint(tx.inputs[j], tx.inputs[i]));
    }
}

/// The inputs with those at `i` and `j` exchanged.
pub open spec fn swap_inputs(inputs: Seq<TxInputView>, i: int, j: int) -> Seq<TxInputView> {
    inputs.update(i, inputs[j]).update(j, inputs[i])
}

/// Exchanging two inputs neither makes nor removes a duplicate.
pub proof fn lemma_swap_keeps_duplicates(inputs: Seq<TxInputView>, i: int, j: int)
    requires
        0 <= i < inputs.len(),
        0 <= j < inputs.len(),
    ensures
        has_duplicate_inputs(swap_inputs(inputs, i, j)) == has_duplicate_inputs(inputs),
{
    let swapped = swap_inputs(inputs, i, j);
    let to = |k: int|
        if k == i {
            j
        } else if k == j {
            i
        } else {
            k
        };
    assert forall|k: int| 0 <= k < inputs.len() implies swapped[k] == inputs[to(k)] by {}
    if has_duplicate_inputs(inputs) {
        let (a, b) = choose|a: int, b: int|
            0 <= a < b < inputs.len() && same_outpoint(#[trigger] inputs[a], #[trigger] inputs[b]);
        let (x, y) = (to(a), to(b));
        assert(swapped[x] == inputs[a] && swapped[y] == inputs[b]);
        if x < y {
            assert(same_outpoint(swapped[x], swapped[y]));
        } else {
            assert(same_outpoint(swapped[y], swapped[x]));
        }
    }
    if has_duplicate_inputs(swapped) {
        let (a, b) = choose|a: int, b: int|
            0 <= a < b < swapped.len() && same_outpoint(
                #[trigger] swapped[a],
                #[trigger] swapped[b],
            );
        let (x, y) = (to(a), to(b));
        assert(inputs[x] == swapped[a] && inputs[y] == swapped[b]);
        if x < y {
            assert(same_outpoint(inputs[x], inputs[y]));
        } else {
            assert(same_outpoint(inputs[y], inputs[x]));
        }
    }
}

/// Exchanging two inputs leaves the result of the structural checks as it
/// was.
pub proof fn lemma_swap_keeps_verdict(tx: TransactionView, i: int, j: int)
    requires
        0 <= i < tx.inputs.len(),
        0 <= j < tx.inputs.len(),
    ensures
        syntax_verdict(
            TransactionView {
                version: tx.version,
                inputs: swap_inputs(tx.inputs, i, j),
                outputs: tx.outputs,
                lock_time: tx.lock_time,
                raw: tx.raw,
            },
        ) == syntax_verdict(tx),
{
    lemma_swap_keeps_duplicates(tx.inputs, i, j);
}

/// `b` holds the inputs of `a` in another order: the input at place `k` of
/// `b` is the one at place `to(k)` of `a`, and `back` undoes `to`.
pub open spec fn rearranged(
    a: Seq<TxInputView>,
    b: Seq<TxInputView>,
    to: spec_fn(int) -> int,
    back: spec_fn(int) -> int,
) -> bool {
    &&& a.len() == b.len()
    &&& forall|k: int|
        0 <= k < b.len() ==> 0 <= #[trigger] to(k) < a.len() && back(to(k)) == k && b[k] == a[to(
            k,
        )]
    &&& forall|k: int|
        0 <= k < a.len() ==> 0 <= #[trigger] back(k) < b.len() && to(back(k)) == k
}

/// Putting the inputs in another order neither makes nor removes a
/// duplicate.
pub proof fn lemma_rearranging_keeps_duplicates(
    a: Seq<TxInputView>,
    b: Seq<TxInputView>,
    to: spec_fn(int) -> int,
    back: spec_fn(int) -> int,
)
    requires
        rearranged(a, b, to, back),
    ensures
        has_duplicate_inputs(a) == has_duplicate_inputs(b),
{
    if has_duplicate_inputs(b) {
        let (i, j) = choose|i: int, j: int|
            0 <= i < j < b.len() && same_outpoint(#[trigger] b[i], #[trigger] b[j]);
        let (x, y) = (to(i), to(j));
        assert(back(x) == i && back(y) == j);
        assert(a[x] == b[i] && a[y] == b[j]);
        if x < y {
            assert(same_outpoint(a[x], a[y]));
        } else {
            assert(same_outpoint(a[y], a[x]));
        }
    }
    if has_duplicate_inputs(a) {
        let (i, j) = choose|i: int, j: int|
            0 <= i < j < a.len() && same_outpoint(#[trigger] a[i], #[trigger] a[j]);
        let (x, y) = (back(i), back(j));
        assert(to(x) == i && to(y) == j);
        assert(b[x] == a[i] && b[y] == a[j]);
        if x < y {
            assert(same_outpoint(b[x], b[y]));
        } else {
            assert(same_outpoint(b[y], b[x]));
        }
    }
}

/// Two transactions with the same inputs in another order, as many outputs
/// and as many raw bytes get the same result from the structural checks.
/// The raw lengths are asked for because the fields do not fix them: a
/// count or a script length need not be written in its shortest form.
pub proof fn lemma_rearranging_keeps_verdict(
    first: TransactionView,
    second: TransactionView,
    to: spec_fn(int) -> int,
    back: spec_fn(int) -> int,
)
    requires
        rearranged(first.inputs, second.inputs, to, back),
        first.outputs.len() == second.outputs.len(),
        first.raw.len() == second.raw.len(),
    ensures
        syntax_verdict(first) == syntax_verdict(second),
{
    lemma_rearranging_keeps_duplicates(first.inputs, second.inputs, to, back);
}

} // verus!
