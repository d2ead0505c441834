use vstd::prelude::*;
use vstd::bytes::{
    spec_u32_from_le_bytes, spec_u64_from_le_bytes, spec_u64_to_le_bytes, u32_from_le_bytes,
    u64_from_le_bytes, u64_to_le_bytes,
};
use vstd::slice::slice_subrange;
use crate::entry::{zero_metadata, EntryView, Metadata, TraceEntry, TraceEntryMPK, get_trace_entry};
use crate::error::{TraceError, TraceErrorView};

verus! {

/// Bytes of the stream prologue; bytes 8..16 hold the entry count.
pub const HEADER_SIZE: usize = 64;

/// Bytes of one wire record.
pub const RECORD_SIZE: usize = 48;

/// One wire record of the instrumentation tracer, little-endian fixed-width.
#[derive(Debug, Clone, Copy, PartialEq, Eq)]
pub struct MPKTraceEntry {
    pub entry_type: u32,
    pub mnemonic: u32,
    pub id: u32,
    pub non_temporal: u32,
    pub value_size_and_location: u64,
    pub value: u64,
    pub address: u64,
    pub flags: u64,
}

/// The record held by 48 bytes.
pub open spec fn record_of(b: Seq<u8>) -> MPKTraceEntry {
    MPKTraceEntry {
        entry_type: spec_u32_from_le_bytes(b.subrange(0, 4)),
        mnemonic: spec_u32_from_le_bytes(b.subrange(4, 8)),
        id: spec_u32_from_le_bytes(b.subrange(8, 12)),
        non_temporal: spec_u32_from_le_bytes(b.subrange(12, 16)),
        value_size_and_location: spec_u64_from_le_bytes(b.subrange(16, 24)),
        value: spec_u64_from_le_bytes(b.subrange(24, 32)),
        address: spec_u64_from_le_bytes(b.subrange(32, 40)),
        flags: spec_u64_from_le_bytes(b.subrange(40, 48)),
    }
}

/// The entry count that a stream's prologue declares.
pub open spec fn header_amount(data: Seq<u8>) -> u64 {
    spec_u64_from_le_bytes(data.subrange(8, 16))
}

/// The `k`-th record after the prologue.
pub open spec fn record_at(data: Seq<u8>, k: nat) -> MPKTraceEntry {
    record_of(data.subrange(64 + 48 * k as int, 64 + 48 * k as int + 48))
}

/// The low `n` bytes of `v`, least significant first.
pub open spec fn low_bytes(v: u64, n: nat) -> Seq<u8> {
    spec_u64_to_le_bytes(v).take(n as int)
}

/// `v` in decimal digits.
pub open spec fn decimal(v: nat) -> Seq<char>
    decreases v,
{
    if v < 10 {
        seq![((v + 48) as u8) as char]
    } else {
        decimal(v / 10).push((((v % 10) + 48) as u8) as char)
    }
}

impl MPKTraceEntry {
    /// The payload size; bit 0 of the field is reserved.
    pub open spec fn size(self) -> u64 {
        self.value_size_and_location >> 1
    }

    /// Whether the record declares a run of writes.
    pub open spec fn is_repeat(self) -> bool {
        self.flags & 4 != 0
    }

    /// The size of each write of a run.
    pub open spec fn elem_size(self) -> u64 {
        let code = self.flags & 3;
        if code == 0 {
            1
        } else if code == 1 {
            2
        } else if code == 2 {
            4
        } else {
            8
        }
    }

    /// How many entries the record stands for.
    pub open spec fn weight(self) -> nat {
        if self.is_repeat() {
            self.size() as nat
        } else {
            1
        }
    }

    /// The entry of a record that declares no run, given its logical id.
    pub open spec fn plain_entry(self, id: nat) -> EntryView {
        if self.entry_type == 0 {
            EntryView::Write {
                id: id as u64,
                address: self.address,
                size: self.size(),
                content: low_bytes(self.value, self.size() as nat),
                non_temporal: false,
                metadata: zero_metadata(),
            }
        } else if self.entry_type == 1 {
            EntryView::Fence {
                id: id as u64,
                mnemonic: if self.mnemonic == 1 {
                    seq!['s', 'f', 'e', 'n', 'c', 'e']
                } else {
                    unimplemented_mnemonic()
                },
                metadata: zero_metadata(),
            }
        } else if self.entry_type == 2 {
            EntryView::Flush {
                id: id as u64,
                mnemonic: if self.mnemonic == 1 {
                    seq!['c', 'l', 'w', 'b']
                } else {
                    unimplemented_mnemonic()
                },
                address: self.address,
                metadata: zero_metadata(),
            }
        } else if self.entry_type == 3 {
            EntryView::Read {
                id: id as u64,
                address: self.address,
                size: self.size(),
                content: low_bytes(self.value, self.size() as nat),
            }
        } else {
            EntryView::Hypercall {
                id: id as u64,
                action: seq!['c', 'h', 'e', 'c', 'k', 'p', 'o', 'i', 'n', 't'],
                value: decimal(self.value as nat),
            }
        }
    }
}

/// The placeholder name of a mnemonic code that has no name yet.
pub open spec fn unimplemented_mnemonic() -> Seq<char> {
    seq!['n', 'o', 't', ' ', 'i', 'm', 'p', 'l', 'e', 'm', 'e', 'n', 't', 'e', 'd']
}

/// Reads the record that starts at `pos`.
pub fn parse_record(data: &[u8], pos: usize) -> (r: MPKTraceEntry)
    requires
        pos + RECORD_SIZE <= data@.len(),
    ensures
        r == record_of(data@.subrange(pos as int, pos + RECORD_SIZE)),
{
    let len = data.len();
    assert(pos + RECORD_SIZE <= len);
    let b = slice_subrange(data, pos, pos + RECORD_SIZE);
    let r = MPKTraceEntry {
        entry_type: u32_from_le_bytes(slice_subrange(b, 0, 4)),
        mnemonic: u32_from_le_bytes(slice_subrange(b, 4, 8)),
        id: u32_from_le_bytes(slice_subrange(b, 8, 12)),
        non_temporal: u32_from_le_bytes(slice_subrange(b, 12, 16)),
        value_size_and_location: u64_from_le_bytes(slice_subrange(b, 16, 24)),
        value: u64_from_le_bytes(slice_subrange(b, 24, 32)),
        address: u64_from_le_bytes(slice_subrange(b, 32, 40)),
        flags: u64_from_le_bytes(slice_subrange(b, 40, 48)),
    };
    r
}

/// The low `n` bytes of `v`, least significant first.
pub fn value_bytes(v: u64, n: usize) -> (r: Vec<u8>)
    requires
        n <= 8,
    ensures
        r@ == low_bytes(v, n as nat),
{
    let all = u64_to_le_bytes(v);
    let mut r: Vec<u8> = Vec::new();
    let mut i: usize = 0;
    while i < n
        invariant
            i <= n <= 8,
            all@ == spec_u64_to_le_bytes(v),
            all@.len() == 8,
            r@ == all@.take(i as int),
        decreases n - i,
    {
        r.push(all[i]);
        i = i + 1;
        assert(r@ == all@.take(i as int));
    }
    r
}

/// Relies on `u64`'s `Display` (through `to_string`): plain decimal digits
/// with no sign, padding or separator.
#[verifier::external_body]
fn decimal_string(v: u64) -> (r: String)
    ensures
        r@ == decimal(v as nat),
{
    v.to_string()
}

/// Builds the entry of a record that declares no run.
fn decode_plain(rec: &MPKTraceEntry, id: u64) -> (r: TraceEntryMPK)
    requires
        rec.entry_type <= 4,
        (rec.entry_type == 0 || rec.entry_type == 3) ==> rec.size() <= 8,
    ensures
        r@ == rec.plain_entry(id as nat),
{
    let size = rec.value_size_and_location >> 1;
    if rec.entry_type == 0 {
        TraceEntryMPK::Write {
            id,
            address: rec.address,
            size,
            content: value_bytes(rec.value, size as usize),
            non_temporal: false,
            metadata: Metadata::zeroed(),
        }
    } else if rec.entry_type == 1 {
        let mnemonic = if rec.mnemonic == 1 {
            proof {
                reveal_strlit("sfence");
                assert("sfence"@ =~= seq!['s', 'f', 'e', 'n', 'c', 'e']);
            }
            "sfence".to_string()
        } else {
            proof {
                reveal_strlit("not implemented");
                assert("not implemented"@ =~= unimplemented_mnemonic());
            }
            "not implemented".to_string()
        };
        TraceEntryMPK::Fence { id, mnemonic, metadata: Metadata::zeroed() }
    } else if rec.entry_type == 2 {
        let mnemonic = if rec.mnemonic == 1 {
            proof {
                reveal_strlit("clwb");
                assert("clwb"@ =~= seq!['c', 'l', 'w', 'b']);
            }
            "clwb".to_string()
        } else {
            proof {
                reveal_strlit("not implemented");
                assert("not implemented"@ =~= unimplemented_mnemonic());
            }
            "not implemented".to_string()
        };
        TraceEntryMPK::Flush {
            id,
            mnemonic,
            address: rec.address,
            metadata: Metadata::zeroed(),
        }
    } else if rec.entry_type == 3 {
        TraceEntryMPK::Read {
            id,
            address: rec.address,
            size,
            content: value_bytes(rec.value, size as usize),
        }
    } else {
        proof {
            reveal_strlit("checkpoint");
            assert("checkpoint"@ =~= seq!['c', 'h', 'e', 'c', 'k', 'p', 'o', 'i', 'n', 't']);
        }
        TraceEntryMPK::Hypercall {
            id,
            action: "checkpoint".to_string(),
            value: decimal_string(rec.value),
        }
    }
}

/// Progress of the run of writes that a repeat record declares, and the
/// number of extra entries that all runs so far have added.
pub struct DecodeState {
    pub total_offset: u64,
    pub remaining: u64,
    pub count: u64,
    pub base_address: u64,
    pub rep_size: u64,
    pub value: u64,
    pub last_id: u64,
}

/// Mathematical model of a run: `count` entries emitted, `remaining` to come.
pub struct RunModel {
    pub remaining: nat,
    pub count: nat,
    pub base: nat,
    pub elem: nat,
    pub value: u64,
    pub start_id: nat,
}

impl DecodeState {
    pub open spec fn run(self) -> RunModel {
        RunModel {
            remaining: self.remaining as nat,
            count: self.count as nat,
            base: self.base_address as nat,
            elem: self.rep_size as nat,
            value: self.value,
            start_id: self.last_id as nat,
        }
    }

    /// Every entry still to come has an address and an id that fit in 64 bits.
    pub open spec fn wf(self) -> bool {
        self.remaining > 0 ==> {
            &&& self.rep_size <= 8
            &&& self.base_address + (self.count + self.remaining - 1) * self.rep_size <= u64::MAX
            &&& self.last_id + self.count + self.remaining - 1 <= u64::MAX
            &&& self.count + self.remaining <= u64::MAX
        }
    }
}

/// The next write of a run.
pub open spec fn rep_entry(run: RunModel) -> EntryView {
    EntryView::Write {
        id: (run.start_id + run.count) as u64,
        address: (run.base + run.count * run.elem) as u64,
        size: run.elem as u64,
        content: low_bytes(run.value, run.elem),
        non_temporal: true,
        metadata: zero_metadata(),
    }
}

/// The run after one more write of it.
pub open spec fn advance(run: RunModel) -> RunModel {
    RunModel { remaining: (run.remaining - 1) as nat, count: run.count + 1, ..run }
}

/// Emits the next write of the current run.
pub fn create_rep_write(state: &mut DecodeState) -> (r: TraceEntryMPK)
    requires
        old(state).wf(),
        old(state).remaining > 0,
    ensures
        final(state).wf(),
        r@ == rep_entry(old(state).run()),
        final(state).run() == advance(old(state).run()),
        final(state).total_offset == old(state).total_offset,
{
    let c = state.count;
    let rep = state.rep_size;
    proof {
        let last = (c + state.remaining - 1) as int;
        assert(c * rep <= last * rep) by (nonlinear_arith)
            requires
                c <= last,
        ;
    }
    let address = state.base_address + c * rep;
    let id = state.last_id + c;
    state.remaining = state.remaining - 1;
    state.count = c + 1;
    TraceEntryMPK::Write {
        id: id,
        address,
        size: rep,
        content: value_bytes(state.value, rep as usize),
        non_temporal: true,
        metadata: Metadata::zeroed(),
    }
}

/// Mathematical model of a stream being decoded.
pub struct StreamModel {
    /// the whole stream, prologue included
    pub data: Seq<u8>,
    /// offset of the next record
    pub pos: nat,
    /// how many more entries the stream is expected to yield
    pub counter: nat,
    /// extra entries that the runs read so far add
    pub total_offset: nat,
    pub run: RunModel,
    pub done: bool,
    /// entries yielded so far
    pub emitted: nat,
    /// records read so far
    pub records: nat,
}

/// What one pull of a stream yields, as a model.
pub open spec fn out_view(r: Option<Result<TraceEntry, TraceError>>) -> Option<
    Result<EntryView, TraceErrorView>,
> {
    match r {
        Some(Ok(e)) => Some(Ok(e@)),
        Some(Err(e)) => Some(Err(e@)),
        None => None,
    }
}

/// The state of a stream before its first pull.
pub open spec fn initial_model(data: Seq<u8>) -> StreamModel {
    StreamModel {
        data,
        pos: 64,
        counter: header_amount(data) as nat,
        total_offset: 0,
        run: RunModel { remaining: 0, count: 0, base: 0, elem: 0, value: 0, start_id: 0 },
        done: false,
        emitted: 0,
        records: 0,
    }
}

/// One pull of a stream: the state after it and what it yields.
pub open spec fn step(m: StreamModel) -> (StreamModel, Option<Result<EntryView, TraceErrorView>>) {
    let fail = StreamModel { done: true, ..m };
    if m.done {
        (m, None)
    } else if m.counter == 0 {
        (fail, None)
    } else if m.run.remaining > 0 {
        (
            StreamModel {
                counter: (m.counter - 1) as nat,
                run: advance(m.run),
                emitted: m.emitted + 1,
                ..m
            },
            Some(Ok(rep_entry(m.run))),
        )
    } else if m.pos + 48 > m.data.len() {
        (fail, Some(Err(TraceErrorView::Truncated { offset: m.pos as usize })))
    } else {
        let rec = record_of(m.data.subrange(m.pos as int, m.pos + 48 as int));
        let id: nat = (rec.id + m.total_offset) as nat;
        let n = rec.size() as nat;
        if rec.is_repeat() {
            if n == 0 {
                (fail, Some(Err(TraceErrorView::EmptyRepeat { offset: m.pos as usize })))
            } else if id + n - 1 > u64::MAX || rec.address + (n - 1) * rec.elem_size() > u64::MAX {
                (fail, Some(Err(TraceErrorView::Overflow { offset: m.pos as usize })))
            } else {
                let run = RunModel {
                    remaining: n,
                    count: 0,
                    base: rec.address as nat,
                    elem: rec.elem_size() as nat,
                    value: rec.value,
                    start_id: id,
                };
                (
                    StreamModel {
                        pos: m.pos + 48,
                        counter: (m.counter - 1) as nat,
                        total_offset: (m.total_offset + n - 1) as nat,
                        run: advance(run),
                        emitted: m.emitted + 1,
                        records: m.records + 1,
                        ..m
                    },
                    Some(Ok(rep_entry(run))),
                )
            }
        } else if id > u64::MAX {
            (fail, Some(Err(TraceErrorView::Overflow { offset: m.pos as usize })))
        } else if rec.entry_type > 4 {
            (
                fail,
                Some(
                    Err(
                        TraceErrorView::UnexpectedVariant {
                            found: rec.entry_type,
                            offset: m.pos as usize,
                        },
                    ),
                ),
            )
        } else if (rec.entry_type == 0 || rec.entry_type == 3) && rec.size() > 8 {
            (
                fail,
                Some(
                    Err(TraceErrorView::OversizedValue { size: rec.size(), offset: m.pos as usize }),
                ),
            )
        } else {
            (
                StreamModel {
                    pos: m.pos + 48,
                    counter: (m.counter - 1) as nat,
                    emitted: m.emitted + 1,
                    records: m.records + 1,
                    ..m
                },
                Some(Ok(rec.plain_entry(id))),
            )
        }
    }
}

/// A stream of the instrumentation tracer being decoded, one entry per pull.
pub struct BinTraceIterator {
    data: Vec<u8>,
    pos: usize,
    counter: u64,
    state: DecodeState,
    done: bool,
    emitted: Ghost<nat>,
    records: Ghost<nat>,
}

impl View for BinTraceIterator {
    type V = StreamModel;

    closed spec fn view(&self) -> StreamModel {
        StreamModel {
            data: self.data@,
            pos: self.pos as nat,
            counter: self.counter as nat,
            total_offset: self.state.total_offset as nat,
            run: self.state.run(),
            done: self.done,
            emitted: self.emitted@,
            records: self.records@,
        }
    }
}

impl BinTraceIterator {
    pub closed spec fn wf(&self) -> bool {
        &&& self.state.wf()
        &&& self.state.total_offset <= u64::MAX
    }

    /// Yields the next entry; `None` once the header's count is reached or
    /// after an error.
    pub fn next(&mut self) -> (r: Option<Result<TraceEntry, TraceError>>)
        requires
            old(self).wf(),
        ensures
            final(self).wf(),
            (final(self)@, out_view(r)) == step(old(self)@),
    {
        if self.done {
            return None;
        }
        if self.counter == 0 {
            self.done = true;
            return None;
        }
        if self.state.remaining > 0 {
            self.counter = self.counter - 1;
            let e = create_rep_write(&mut self.state);
            self.emitted = Ghost(self.emitted@ + 1);
            return Some(Ok(get_trace_entry(e)));
        }
        let len = self.data.len();
        let offset = self.pos;
        if len < RECORD_SIZE || offset > len - RECORD_SIZE {
            self.done = true;
            return Some(Err(TraceError::Truncated { offset }));
        }
        let rec = parse_record(self.data.as_slice(), offset);
        let size = rec.value_size_and_location >> 1;
        let id = rec.id as u128 + self.state.total_offset as u128;
        if rec.flags & 4 != 0 {
            if size == 0 {
                self.done = true;
                return Some(Err(TraceError::EmptyRepeat { offset }));
            }
            let code = rec.flags & 3;
            let elem: u64 = if code == 0 {
                1
            } else if code == 1 {
                2
            } else if code == 2 {
                4
            } else {
                8
            };
            proof {
                let k = (size - 1) as int;
                assert(k * elem <= k * 8) by (nonlinear_arith)
                    requires
                        0 <= k,
                        elem <= 8,
                ;
            }
            let last_address = rec.address as u128 + (size as u128 - 1) * elem as u128;
            if id + size as u128 - 1 > u64::MAX as u128 || last_address > u64::MAX as u128 {
                self.done = true;
                return Some(Err(TraceError::Overflow { offset }));
            }
            self.state.remaining = size;
            self.state.count = 0;
            self.state.base_address = rec.address;
            self.state.rep_size = elem;
            self.state.value = rec.value;
            self.state.last_id = id as u64;
            self.state.total_offset = self.state.total_offset + (size - 1);
            self.counter = self.counter - 1;
            self.pos = offset + RECORD_SIZE;
            self.records = Ghost(self.records@ + 1);
            let e = create_rep_write(&mut self.state);
            self.emitted = Ghost(self.emitted@ + 1);
            return Some(Ok(get_trace_entry(e)));
        }
        if id > u64::MAX as u128 {
            self.done = true;
            return Some(Err(TraceError::Overflow { offset }));
        }
        if rec.entry_type > 4 {
            self.done = true;
            return Some(Err(TraceError::UnexpectedVariant { found: rec.entry_type, offset }));
        }
        if (rec.entry_type == 0 || rec.entry_type == 3) && size > 8 {
            self.done = true;
            return Some(Err(TraceError::OversizedValue { size, offset }));
        }
        let e = decode_plain(&rec, id as u64);
        self.pos = offset + RECORD_SIZE;
        self.counter = self.counter - 1;
        self.emitted = Ghost(self.emitted@ + 1);
        self.records = Ghost(self.records@ + 1);
        Some(Ok(get_trace_entry(e)))
    }
}

/// Opens a stream of the instrumentation tracer: a 64-byte prologue whose
/// bytes 8..16 give the entry count, then the records.
pub fn parse_trace_file_bin_mpk(data: Vec<u8>) -> (r: Result<BinTraceIterator, TraceError>)
    ensures
        data@.len() < HEADER_SIZE <==> (r is Err),
        (r is Err) ==> (r->Err_0@ == (TraceErrorView::Truncated { offset: data@.len() as usize })),
        (r is Ok) ==> (r->Ok_0.wf() && r->Ok_0@ == initial_model(data@)),
{
    let len = data.len();
    if len < HEADER_SIZE {
        return Err(TraceError::Truncated { offset: len });
    }
    let amount = u64_from_le_bytes(slice_subrange(data.as_slice(), 8, 16));
    let it = BinTraceIterator {
        data,
        pos: HEADER_SIZE,
        counter: amount,
        state: DecodeState {
            total_offset: 0,
            remaining: 0,
            count: 0,
            base_address: 0,
            rep_size: 0,
            value: 0,
            last_id: 0,
        },
        done: false,
        emitted: Ghost(0),
        records: Ghost(0),
    };
    Ok(it)
}

/// What `k` successive pulls yield.
pub open spec fn pulls(m: StreamModel, k: nat) -> Seq<Option<Result<EntryView, TraceErrorView>>>
    decreases k,
{
    if k == 0 {
        Seq::empty()
    } else {
        seq![step(m).1] + pulls(step(m).0, (k - 1) as nat)
    }
}

/// Entries that the first `k` records stand for.
pub open spec fn weights(data: Seq<u8>, k: nat) -> nat
    decreases k,
{
    if k == 0 {
        0
    } else {
        weights(data, (k - 1) as nat) + record_at(data, (k - 1) as nat).weight()
    }
}

/// The complete records carry consecutive wire ids, starting from the
/// first record's.
pub open spec fn ids_sequential(data: Seq<u8>) -> bool {
    forall|k: nat|
        64 + 48 * (k + 1) <= data.len() ==> (#[trigger] record_at(data, k)).id == record_at(data, 0).id
            + k
}

/// What holds of every state that pulls reach from the start of a stream.
pub open spec fn stream_inv(m: StreamModel) -> bool {
    &&& m.data.len() >= 64
    &&& m.pos == 64 + 48 * m.records
    &&& m.pos <= m.data.len()
    &&& m.counter + m.emitted == header_amount(m.data)
    &&& m.emitted + m.run.remaining == weights(m.data, m.records)
    &&& m.total_offset + m.records == weights(m.data, m.records)
    &&& (ids_sequential(m.data) && m.run.remaining > 0) ==> m.run.start_id + m.run.count == record_at(m.data, 0).id + m.emitted
}

/// Pulls inside a run yield its remaining writes in order.
proof fn lemma_drain(m: StreamModel, k: nat)
    requires
        !m.done,
        k <= m.run.remaining,
        m.run.remaining <= m.counter,
    ensures
        pulls(m, k).len() == k,
        forall|i: int|
            0 <= i < k ==> pulls(m, k)[i] == Some(
                Ok::<EntryView, TraceErrorView>(rep_entry(RunModel { count: m.run.count + i as nat, ..m.run })),
            ),
    decreases k,
{
    if k > 0 {
        let m1 = step(m).0;
        lemma_drain(m1, (k - 1) as nat);
        assert forall|i: int| 0 <= i < k implies pulls(m, k)[i] == Some(
            Ok::<EntryView, TraceErrorView>(rep_entry(RunModel { count: m.run.count + i as nat, ..m.run })),
        ) by {
            if i > 0 {
                assert(pulls(m, k)[i] == pulls(m1, (k - 1) as nat)[i - 1]);
            }
        }
    }
}

/// A repeat record of `n` writes, element size `elem`, base address `A`,
/// value `V` and logical id `I` yields exactly `n` writes: ids `I..I+n-1`,
/// addresses `A + i * elem`, each non-temporal, with the low `elem` bytes of
/// `V` as content.
pub proof fn lemma_repeat_expansion(m: StreamModel)
    requires
        !m.done,
        m.counter >= record_of(m.data.subrange(m.pos as int, m.pos + 48 as int)).size(),
        m.run.remaining == 0,
        m.pos + 48 <= m.data.len(),
        record_of(m.data.subrange(m.pos as int, m.pos + 48 as int)).is_repeat(),
        record_of(m.data.subrange(m.pos as int, m.pos + 48 as int)).size() > 0,
        ({
            let rec = record_of(m.data.subrange(m.pos as int, m.pos + 48 as int));
            &&& rec.id + m.total_offset + rec.size() - 1 <= u64::MAX
            &&& rec.address + (rec.size() - 1) * rec.elem_size() <= u64::MAX
        }),
    ensures
        ({
            let rec = record_of(m.data.subrange(m.pos as int, m.pos + 48 as int));
            let n = rec.size() as nat;
            let elem = rec.elem_size() as nat;
            &&& pulls(m, n).len() == n
            &&& forall|i: int|
                0 <= i < n ==> pulls(m, n)[i] == Some(
                    Ok::<EntryView, TraceErrorView>(
                        EntryView::Write {
                            id: (rec.id + m.total_offset + i) as u64,
                            address: (rec.address + i * elem) as u64,
                            size: elem as u64,
                            content: low_bytes(rec.value, elem),
                            non_temporal: true,
                            metadata: zero_metadata(),
                        },
                    ),
                )
        }),
{
    let rec = record_of(m.data.subrange(m.pos as int, m.pos + 48 as int));
    let n = rec.size() as nat;
    let m1 = step(m).0;
    lemma_drain(m1, (n - 1) as nat);
    assert forall|i: int| 0 < i < n implies pulls(m, n)[i] == pulls(m1, (n - 1) as nat)[i - 1] by {}
}

/// The start of a stream satisfies the stream invariant.
pub proof fn lemma_initial_inv(data: Seq<u8>)
    requires
        data.len() >= 64,
    ensures
        stream_inv(initial_model(data)),
{
}

/// Every pull keeps the stream invariant.
pub proof fn lemma_step_inv(m: StreamModel)
    requires
        stream_inv(m),
    ensures
        stream_inv(step(m).0),
{
    let m1 = step(m).0;
    if !m.done && m.counter > 0 && m.run.remaining == 0 && m.pos + 48 <= m.data.len() {
        assert(record_at(m.data, m.records) == record_of(m.data.subrange(m.pos as int, m.pos + 48 as int)));
        assert(weights(m.data, m.records + 1) == weights(m.data, m.records) + record_at(m.data, m.records).weight());
        if m1.records == m.records + 1 && ids_sequential(m.data) && m1.run.remaining > 0 {
            assert(record_at(m.data, m.records).id == record_at(m.data, 0).id + m.records);
        }
    }
}

/// Across a stream whose records carry consecutive wire ids from `r0`, every
/// entry's id is `r0` plus the number of entries yielded before it: the ids
/// run `r0, r0 + 1, ...` with no gap, however many runs the stream holds.
pub proof fn lemma_ids_contiguous(m: StreamModel)
    requires
        stream_inv(m),
        ids_sequential(m.data),
    ensures
        step(m).1 matches Some(Ok(e)) ==> e.id() == (record_at(m.data, 0).id + m.emitted) as u64,
        step(m).0.emitted == m.emitted + (if step(m).1 matches Some(Ok(_)) { 1nat } else { 0nat }),
{
    if !m.done && m.counter > 0 && m.run.remaining == 0 && m.pos + 48 <= m.data.len() {
        assert(record_at(m.data, m.records) == record_of(m.data.subrange(m.pos as int, m.pos + 48 as int)));
        assert(record_at(m.data, m.records).id == record_at(m.data, 0).id + m.records);
    }
}

/// A stream ends without error only once it has yielded the header's count
/// of entries, from complete records that stand for at least that many.
pub proof fn lemma_normal_end(m: StreamModel)
    requires
        stream_inv(m),
        !m.done,
        step(m).1 is None,
    ensures
        m.emitted == header_amount(m.data),
        64 + 48 * m.records <= m.data.len(),
        weights(m.data, m.records) >= header_amount(m.data),
{
}

/// A stream that has ended yields nothing more.
proof fn lemma_done_pulls(m: StreamModel, k: nat)
    requires
        m.done,
    ensures
        pulls(m, k).len() == k,
        forall|i: int| 0 <= i < k ==> (#[trigger] pulls(m, k)[i]) is None,
    decreases k,
{
    if k > 0 {
        assert(step(m).0 == m);
        lemma_done_pulls(m, (k - 1) as nat);
        assert forall|i: int| 0 <= i < k implies (#[trigger] pulls(m, k)[i]) is None by {
            if i > 0 {
                assert(pulls(m, k)[i] == pulls(m, (k - 1) as nat)[i - 1]);
            }
        }
    }
}

/// From a reachable state, the `i`-th of `k` pulls, where it yields an
/// entry, yields id `r0 + emitted + i`, `r0` the first record's wire id.
proof fn lemma_pulls_ids(m: StreamModel, k: nat)
    requires
        stream_inv(m),
        ids_sequential(m.data),
    ensures
        pulls(m, k).len() == k,
        forall|i: int|
            0 <= i < k && (#[trigger] pulls(m, k)[i] matches Some(Ok(_))) ==> pulls(
                m,
                k,
            )[i]->0->Ok_0.id() == (record_at(m.data, 0).id + m.emitted + i) as u64,
    decreases k,
{
    if k > 0 {
        let m1 = step(m).0;
        lemma_ids_contiguous(m);
        lemma_step_inv(m);
        lemma_pulls_ids(m1, (k - 1) as nat);
        if !(step(m).1 matches Some(Ok(_))) {
            lemma_done_pulls(m1, (k - 1) as nat);
        }
        assert forall|i: int|
            0 <= i < k && (#[trigger] pulls(m, k)[i] matches Some(Ok(_))) implies pulls(
                m,
                k,
            )[i]->0->Ok_0.id() == (record_at(m.data, 0).id + m.emitted + i) as u64 by {
            if i > 0 {
                assert(pulls(m, k)[i] == pulls(m1, (k - 1) as nat)[i - 1]);
            }
        }
    }
}

/// Across any stream whose records carry consecutive wire ids from `r0`,
/// the entries' ids run `r0, r0 + 1, ...` in the order they are yielded,
/// however many runs the stream holds: the `i`-th pull, where it yields an
/// entry, yields id `r0 + i`.
pub proof fn lemma_stream_ids(data: Seq<u8>, k: nat)
    requires
        data.len() >= 64,
        ids_sequential(data),
    ensures
        pulls(initial_model(data), k).len() == k,
        forall|i: int|
            0 <= i < k && (#[trigger] pulls(initial_model(data), k)[i] matches Some(Ok(_)))
                ==> pulls(initial_model(data), k)[i]->0->Ok_0.id() == (record_at(data, 0).id + i) as u64,
{
    lemma_initial_inv(data);
    lemma_pulls_ids(initial_model(data), k);
}

proof fn lemma_pulls_len(m: StreamModel, k: nat)
    ensures
        pulls(m, k).len() == k,
    decreases k,
{
    if k > 0 {
        lemma_pulls_len(step(m).0, (k - 1) as nat);
    }
}

proof fn lemma_pulls_end(m: StreamModel, k: nat, n: nat)
    requires
        stream_inv(m),
        !m.done,
        n < k,
        forall|i: int| 0 <= i < n ==> (#[trigger] pulls(m, k)[i]) matches Some(Ok(_)),
        pulls(m, k)[n as int] is None,
    ensures
        m.emitted + n == header_amount(m.data),
        exists|r: nat|
            64 + 48 * r <= m.data.len() && #[trigger] weights(m.data, r) >= header_amount(m.data),
    decreases n,
{
    let m1 = step(m).0;
    if n == 0 {
        lemma_normal_end(m);
        assert(64 + 48 * m.records <= m.data.len() && weights(m.data, m.records) >= header_amount(m.data));
    } else {
        assert(pulls(m, k)[0] matches Some(Ok(_)));
        lemma_step_inv(m);
        lemma_pulls_len(m1, (k - 1) as nat);
        assert forall|i: int| 0 <= i < n - 1 implies (#[trigger] pulls(m1, (k - 1) as nat)[i]) matches Some(
            Ok(_),
        ) by {
            assert(pulls(m, k)[i + 1] == pulls(m1, (k - 1) as nat)[i]);
        }
        assert(pulls(m, k)[n as int] == pulls(m1, (k - 1) as nat)[n - 1]);
        lemma_pulls_end(m1, (k - 1) as nat, (n - 1) as nat);
    }
}

/// A stream whose prologue declares `amount` entries ends without error
/// only after exactly `amount` entries, a run of `n` writes counting `n`,
/// and only if the complete records present stand for at least `amount`
/// entries. Where they stand for fewer, an error comes before any end.
pub proof fn lemma_stream_end(data: Seq<u8>, k: nat, n: nat)
    requires
        data.len() >= 64,
        n < k,
        forall|i: int| 0 <= i < n ==> (#[trigger] pulls(initial_model(data), k)[i]) matches Some(Ok(_)),
        pulls(initial_model(data), k)[n as int] is None,
    ensures
        n == header_amount(data),
        exists|r: nat| 64 + 48 * r <= data.len() && #[trigger] weights(data, r) >= header_amount(data),
{
    lemma_initial_inv(data);
    lemma_pulls_end(initial_model(data), k, n);
}

} // verus!
