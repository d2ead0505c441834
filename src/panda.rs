use vstd::prelude::*;
use vstd::bytes::{
    lemma_auto_spec_u16_to_from_le_bytes, lemma_auto_spec_u32_to_from_le_bytes,
    lemma_auto_spec_u64_to_from_le_bytes, spec_u16_from_le_bytes, spec_u16_to_le_bytes,
    spec_u32_from_le_bytes, spec_u32_to_le_bytes, spec_u64_from_le_bytes, spec_u64_to_le_bytes,
};
use vstd::slice::{slice_subrange, slice_to_vec};
use vstd::utf8::{decode_utf8, encode_utf8, encode_utf8_decode_utf8, encode_utf8_valid_utf8, valid_utf8};
use crate::entry::{EntryView, Metadata, MetadataView, TraceEntry};
use crate::error::{TraceError, TraceErrorView};

verus! {

/// The variable-length integer of the hardware tracer's layout: one byte up
/// to 250, else a marker byte (251, 252, 253) and the value in 2, 4 or 8
/// little-endian bytes.
pub open spec fn varint(x: u64) -> Seq<u8> {
    if x <= 250 {
        seq![x as u8]
    } else if x <= 0xffff {
        seq![251u8] + spec_u16_to_le_bytes(x as u16)
    } else if x <= 0xffff_ffff {
        seq![252u8] + spec_u32_to_le_bytes(x as u32)
    } else {
        seq![253u8] + spec_u64_to_le_bytes(x)
    }
}

/// The integer that starts at `p`, and the position after it.
pub open spec fn varint_at(b: Seq<u8>, p: nat) -> Option<(u64, nat)> {
    if p >= b.len() {
        None
    } else if b[p as int] <= 250 {
        Some((b[p as int] as u64, p + 1))
    } else if b[p as int] == 251 {
        if p + 3 <= b.len() {
            Some((spec_u16_from_le_bytes(b.subrange(p + 1 as int, p + 3 as int)) as u64, p + 3))
        } else {
            None
        }
    } else if b[p as int] == 252 {
        if p + 5 <= b.len() {
            Some((spec_u32_from_le_bytes(b.subrange(p + 1 as int, p + 5 as int)) as u64, p + 5))
        } else {
            None
        }
    } else if b[p as int] == 253 {
        if p + 9 <= b.len() {
            Some((spec_u64_from_le_bytes(b.subrange(p + 1 as int, p + 9 as int)), p + 9))
        } else {
            None
        }
    } else {
        None
    }
}

/// `b` holds `e` at position `p`.
pub open spec fn holds_at(b: Seq<u8>, p: nat, e: Seq<u8>) -> bool {
    p + e.len() <= b.len() && b.subrange(p as int, p + e.len() as int) == e
}

proof fn lemma_holds_split(b: Seq<u8>, p: nat, x: Seq<u8>, y: Seq<u8>)
    requires
        holds_at(b, p, x + y),
    ensures
        holds_at(b, p, x),
        holds_at(b, p + x.len(), y),
{
    let w = b.subrange(p as int, p + (x + y).len() as int);
    assert(w == x + y);
    assert(b.subrange(p as int, p + x.len() as int) =~= w.subrange(0, x.len() as int));
    assert(w.subrange(0, x.len() as int) =~= x);
    assert(b.subrange(p + x.len() as int, p + x.len() + y.len() as int) =~= w.subrange(
        x.len() as int,
        w.len() as int,
    ));
    assert(w.subrange(x.len() as int, w.len() as int) =~= y);
}

proof fn lemma_varint_at(b: Seq<u8>, p: nat, x: u64)
    requires
        holds_at(b, p, varint(x)),
    ensures
        varint_at(b, p) == Some((x, p + varint(x).len())),
{
    lemma_auto_spec_u16_to_from_le_bytes();
    lemma_auto_spec_u32_to_from_le_bytes();
    lemma_auto_spec_u64_to_from_le_bytes();
    let e = varint(x);
    assert(b[p as int] == e[0]);
    if x > 250 {
        let n = (e.len() - 1) as int;
        assert(b.subrange(p + 1 as int, p + 1 + n) =~= e.subrange(1, 1 + n));
        if x <= 0xffff {
            assert(e.subrange(1, 3) =~= spec_u16_to_le_bytes(x as u16));
        } else if x <= 0xffff_ffff {
            assert(e.subrange(1, 5) =~= spec_u32_to_le_bytes(x as u32));
        } else {
            assert(e.subrange(1, 9) =~= spec_u64_to_le_bytes(x));
        }
    }
}

/// Relies on bincode's `encode_to_vec` for a `u64` under the standard
/// configuration: the variable-length integer above. Writing to a vector
/// does not fail.
#[verifier::external_body]
fn bincode_encode_u64(x: u64) -> (r: Vec<u8>)
    ensures
        r@ == varint(x),
{
    match bincode::encode_to_vec(x, bincode::config::standard()) {
        Ok(v) => v,
        Err(_) => Vec::new(),
    }
}

/// Appends `x` as a variable-length integer.
fn push_varint(out: &mut Vec<u8>, x: u64)
    ensures
        final(out)@ == old(out)@ + varint(x),
{
    let mut v = bincode_encode_u64(x);
    out.append(&mut v);
}

/// A position and what follows it, as positions of the model.
pub open spec fn at_view<T>(r: Option<(T, usize)>) -> Option<(T, nat)> {
    match r {
        Some((x, q)) => Some((x, q as nat)),
        None => None,
    }
}

/// Relies on bincode's `decode_from_slice` for a `u64` under the standard
/// configuration: the integer at the start of `b`, and how many bytes it
/// took; an error where the bytes end early or the marker byte is 254 or 255.
#[verifier::external_body]
fn bincode_decode_u64(b: &[u8]) -> (r: Option<(u64, usize)>)
    ensures
        at_view(r) == varint_at(b@, 0),
{
    match bincode::decode_from_slice::<u64, _>(b, bincode::config::standard()) {
        Ok(x) => Some(x),
        Err(_) => None,
    }
}

/// Relies on bincode's `decode_from_slice` for a `u32` under the standard
/// configuration: as for a `u64`, but the 8-byte marker 253 is refused too.
#[verifier::external_body]
fn bincode_decode_u32(b: &[u8]) -> (r: Option<(u32, usize)>)
    ensures
        at_view(r) == tag_at(b@, 0),
{
    match bincode::decode_from_slice::<u32, _>(b, bincode::config::standard()) {
        Ok(x) => Some(x),
        Err(_) => None,
    }
}

proof fn lemma_varint_shift(b: Seq<u8>, p: nat)
    requires
        p <= b.len(),
    ensures
        ({
            let sub = b.subrange(p as int, b.len() as int);
            match varint_at(b, p) {
                Some((v, q)) => q <= b.len() && varint_at(sub, 0) == Some((v, (q - p) as nat)),
                None => varint_at(sub, 0) is None,
            }
        }),
{
    let sub = b.subrange(p as int, b.len() as int);
    if p < b.len() {
        assert(sub[0] == b[p as int]);
        if p + 3 <= b.len() {
            assert(sub.subrange(1, 3) =~= b.subrange(p + 1 as int, p + 3 as int));
        }
        if p + 5 <= b.len() {
            assert(sub.subrange(1, 5) =~= b.subrange(p + 1 as int, p + 5 as int));
        }
        if p + 9 <= b.len() {
            assert(sub.subrange(1, 9) =~= b.subrange(p + 1 as int, p + 9 as int));
        }
    }
}

/// Reads the integer that starts at `pos`.
fn read_varint(data: &[u8], pos: usize) -> (r: Option<(u64, usize)>)
    ensures
        at_view(r) == varint_at(data@, pos as nat),
{
    let len = data.len();
    if pos >= len {
        return None;
    }
    proof {
        lemma_varint_shift(data@, pos as nat);
    }
    match bincode_decode_u64(slice_subrange(data, pos, len)) {
        Some((v, used)) => Some((v, pos + used)),
        None => None,
    }
}

pub open spec fn enc_bool(v: bool) -> Seq<u8> {
    seq![if v { 1u8 } else { 0u8 }]
}

pub open spec fn bool_at(b: Seq<u8>, p: nat) -> Option<(bool, nat)> {
    if p >= b.len() {
        None
    } else if b[p as int] == 0 {
        Some((false, p + 1))
    } else if b[p as int] == 1 {
        Some((true, p + 1))
    } else {
        None
    }
}

/// A byte string: its length, then its bytes.
pub open spec fn enc_bytes(s: Seq<u8>) -> Seq<u8> {
    varint(s.len() as u64) + s
}

pub open spec fn bytes_at(b: Seq<u8>, p: nat) -> Option<(Seq<u8>, nat)> {
    match varint_at(b, p) {
        None => None,
        Some((n, q)) => if q + n <= b.len() {
            Some((b.subrange(q as int, q + n as int), (q + n) as nat))
        } else {
            None
        },
    }
}

/// A string: its UTF-8 bytes as a byte string.
pub open spec fn enc_str(s: Seq<char>) -> Seq<u8> {
    enc_bytes(encode_utf8(s))
}

pub open spec fn str_at(b: Seq<u8>, p: nat) -> Option<(Seq<char>, nat)> {
    match bytes_at(b, p) {
        None => None,
        Some((bs, q)) => if valid_utf8(bs) {
            Some((decode_utf8(bs), q))
        } else {
            None
        },
    }
}

/// The integers of a sequence one after another, without their count.
pub open spec fn enc_u64s(s: Seq<u64>) -> Seq<u8>
    decreases s.len(),
{
    if s.len() == 0 {
        Seq::empty()
    } else {
        enc_u64s(s.drop_last()) + varint(s.last())
    }
}

pub open spec fn u64s_at(b: Seq<u8>, p: nat, n: nat) -> Option<(Seq<u64>, nat)>
    decreases n,
{
    if n == 0 {
        Some((Seq::empty(), p))
    } else {
        match u64s_at(b, p, (n - 1) as nat) {
            None => None,
            Some((s, q)) => match varint_at(b, q) {
                None => None,
                Some((x, r)) => Some((s.push(x), r)),
            },
        }
    }
}

pub open spec fn enc_meta(m: MetadataView) -> Seq<u8> {
    varint(m.pc) + enc_bool(m.in_kernel) + varint(m.kernel_stacktrace.len() as u64) + enc_u64s(
        m.kernel_stacktrace,
    )
}

pub open spec fn meta_at(b: Seq<u8>, p: nat) -> Option<(MetadataView, nat)> {
    match varint_at(b, p) {
        None => None,
        Some((pc, at1)) => match bool_at(b, at1) {
            None => None,
            Some((in_kernel, at2)) => match varint_at(b, at2) {
                None => None,
                Some((n, at3)) => match u64s_at(b, at3, n as nat) {
                    None => None,
                    Some((st, at4)) => Some(
                        (MetadataView { pc, in_kernel, kernel_stacktrace: st }, at4),
                    ),
                },
            },
        },
    }
}

proof fn lemma_bool_at(b: Seq<u8>, p: nat, v: bool)
    requires
        holds_at(b, p, enc_bool(v)),
    ensures
        bool_at(b, p) == Some((v, p + 1)),
{
    assert(b[p as int] == enc_bool(v)[0]);
}

proof fn lemma_bytes_at(b: Seq<u8>, p: nat, s: Seq<u8>)
    requires
        s.len() <= u64::MAX,
        holds_at(b, p, enc_bytes(s)),
    ensures
        bytes_at(b, p) == Some((s, p + enc_bytes(s).len())),
{
    lemma_holds_split(b, p, varint(s.len() as u64), s);
    lemma_varint_at(b, p, s.len() as u64);
}

proof fn lemma_str_at(b: Seq<u8>, p: nat, s: Seq<char>)
    requires
        encode_utf8(s).len() <= u64::MAX,
        holds_at(b, p, enc_str(s)),
    ensures
        str_at(b, p) == Some((s, p + enc_str(s).len())),
{
    lemma_bytes_at(b, p, encode_utf8(s));
    encode_utf8_valid_utf8(s);
    encode_utf8_decode_utf8(s);
}

proof fn lemma_u64s_at(b: Seq<u8>, p: nat, s: Seq<u64>)
    requires
        holds_at(b, p, enc_u64s(s)),
    ensures
        u64s_at(b, p, s.len()) == Some((s, p + enc_u64s(s).len())),
    decreases s.len(),
{
    if s.len() > 0 {
        let init = s.drop_last();
        lemma_holds_split(b, p, enc_u64s(init), varint(s.last()));
        lemma_u64s_at(b, p, init);
        lemma_varint_at(b, p + enc_u64s(init).len(), s.last());
        assert(init.push(s.last()) == s);
    }
}

proof fn lemma_meta_at(b: Seq<u8>, p: nat, m: MetadataView)
    requires
        m.kernel_stacktrace.len() <= u64::MAX,
        holds_at(b, p, enc_meta(m)),
    ensures
        meta_at(b, p) == Some((m, p + enc_meta(m).len())),
{
    let a = varint(m.pc);
    let c = enc_bool(m.in_kernel);
    let d = varint(m.kernel_stacktrace.len() as u64);
    let e = enc_u64s(m.kernel_stacktrace);
    lemma_holds_split(b, p, a + c + d, e);
    lemma_holds_split(b, p, a + c, d);
    lemma_holds_split(b, p, a, c);
    lemma_varint_at(b, p, m.pc);
    lemma_bool_at(b, p + a.len(), m.in_kernel);
    lemma_varint_at(b, p + a.len() + c.len(), m.kernel_stacktrace.len() as u64);
    lemma_u64s_at(b, p + a.len() + c.len() + d.len(), m.kernel_stacktrace);
}

fn push_bool(out: &mut Vec<u8>, v: bool)
    ensures
        final(out)@ == old(out)@ + enc_bool(v),
{
    out.push(if v { 1u8 } else { 0u8 });
    assert(final(out)@ =~= old(out)@ + enc_bool(v));
}

fn push_bytes(out: &mut Vec<u8>, s: &[u8])
    ensures
        final(out)@ == old(out)@ + enc_bytes(s@),
{
    let n = s.len();
    push_varint(out, n as u64);
    let ghost start = out@;
    let mut i: usize = 0;
    while i < n
        invariant
            i <= n == s@.len(),
            out@ == start + s@.take(i as int),
        decreases n - i,
    {
        out.push(s[i]);
        i = i + 1;
        assert(out@ =~= start + s@.take(i as int));
    }
    assert(s@.take(n as int) =~= s@);
    assert(final(out)@ =~= old(out)@ + enc_bytes(s@));
}

fn push_str(out: &mut Vec<u8>, s: &String)
    ensures
        final(out)@ == old(out)@ + enc_str(s@),
{
    push_bytes(out, s.as_str().as_bytes());
}

fn push_meta(out: &mut Vec<u8>, m: &Metadata)
    ensures
        final(out)@ == old(out)@ + enc_meta(m@),
{
    push_varint(out, m.pc);
    push_bool(out, m.in_kernel);
    let n = m.kernel_stacktrace.len();
    push_varint(out, n as u64);
    let ghost start = out@;
    let mut i: usize = 0;
    while i < n
        invariant
            i <= n == m.kernel_stacktrace@.len(),
            out@ == start + enc_u64s(m.kernel_stacktrace@.take(i as int)),
        decreases n - i,
    {
        push_varint(out, m.kernel_stacktrace[i]);
        i = i + 1;
        assert(m.kernel_stacktrace@.take(i as int).drop_last() =~= m.kernel_stacktrace@.take(i - 1));
        assert(out@ =~= start + enc_u64s(m.kernel_stacktrace@.take(i as int)));
    }
    assert(m.kernel_stacktrace@.take(n as int) =~= m.kernel_stacktrace@);
    assert(final(out)@ =~= old(out)@ + enc_meta(m@));
}

fn read_bool(data: &[u8], pos: usize) -> (r: Option<(bool, usize)>)
    ensures
        at_view(r) == bool_at(data@, pos as nat),
{
    if pos >= data.len() {
        None
    } else if data[pos] == 0 {
        Some((false, pos + 1))
    } else if data[pos] == 1 {
        Some((true, pos + 1))
    } else {
        None
    }
}

fn read_bytes(data: &[u8], pos: usize) -> (r: Option<(Vec<u8>, usize)>)
    ensures
        match r {
            Some((v, q)) => bytes_at(data@, pos as nat) == Some((v@, q as nat)),
            None => bytes_at(data@, pos as nat) is None,
        },
{
    let (n, q) = match read_varint(data, pos) {
        Some(x) => x,
        None => return None,
    };
    let len = data.len();
    if n > (len - q) as u64 {
        return None;
    }
    let end = q + n as usize;
    Some((slice_to_vec(slice_subrange(data, q, end)), end))
}

/// Relies on `std::str::from_utf8`: it succeeds exactly on valid UTF-8,
/// and the string holds the characters that the bytes encode.
#[verifier::external_body]
fn utf8_string(b: &[u8]) -> (r: Option<String>)
    ensures
        (r is Some) == valid_utf8(b@),
        (r is Some) ==> (r->0@ == decode_utf8(b@)),
{
    match std::str::from_utf8(b) {
        Ok(s) => Some(s.to_string()),
        Err(_) => None,
    }
}

fn read_str(data: &[u8], pos: usize) -> (r: Option<(String, usize)>)
    ensures
        match r {
            Some((s, q)) => str_at(data@, pos as nat) == Some((s@, q as nat)),
            None => str_at(data@, pos as nat) is None,
        },
{
    let (bytes, q) = match read_bytes(data, pos) {
        Some(x) => x,
        None => return None,
    };
    match utf8_string(bytes.as_slice()) {
        Some(s) => Some((s, q)),
        None => None,
    }
}

fn read_meta(data: &[u8], pos: usize) -> (r: Option<(Metadata, usize)>)
    ensures
        match r {
            Some((m, q)) => meta_at(data@, pos as nat) == Some((m@, q as nat)),
            None => meta_at(data@, pos as nat) is None,
        },
{
    let (pc, at1) = match read_varint(data, pos) {
        Some(x) => x,
        None => return None,
    };
    let (in_kernel, at2) = match read_bool(data, at1) {
        Some(x) => x,
        None => return None,
    };
    let (n, at3) = match read_varint(data, at2) {
        Some(x) => x,
        None => return None,
    };
    let mut st: Vec<u64> = Vec::new();
    let mut q = at3;
    let mut i: u64 = 0;
    while i < n
        invariant
            i <= n,
            varint_at(data@, pos as nat) == Some((pc, at1 as nat)),
            bool_at(data@, at1 as nat) == Some((in_kernel, at2 as nat)),
            varint_at(data@, at2 as nat) == Some((n, at3 as nat)),
            u64s_at(data@, at3 as nat, i as nat) == Some((st@, q as nat)),
        decreases n - i,
    {
        let (x, q2) = match read_varint(data, q) {
            Some(x) => x,
            None => {
                proof {
                    lemma_u64s_fail(data@, at3 as nat, i as nat, n as nat);
                }
                return None;
            },
        };
        st.push(x);
        q = q2;
        i = i + 1;
    }
    Some((Metadata { pc, in_kernel, kernel_stacktrace: st }, q))
}

/// Once the integers stop at some count, they stop at every larger count.
proof fn lemma_u64s_fail(b: Seq<u8>, p: nat, i: nat, n: nat)
    requires
        i < n,
        u64s_at(b, p, i) matches Some((_, q)) && varint_at(b, q) is None,
    ensures
        u64s_at(b, p, n) is None,
    decreases n - i,
{
    if n > i + 1 {
        lemma_u64s_none(b, p, i + 1, n);
    }
}

proof fn lemma_u64s_none(b: Seq<u8>, p: nat, i: nat, n: nat)
    requires
        i <= n,
        u64s_at(b, p, i) is None,
    ensures
        u64s_at(b, p, n) is None,
    decreases n - i,
{
    if n > i {
        lemma_u64s_none(b, p, i, (n - 1) as nat);
    }
}

/// An entry in the hardware tracer's layout: the variant's index, then its
/// fields in declaration order.
pub open spec fn encode_entry_spec(e: EntryView) -> Seq<u8> {
    match e {
        EntryView::Write { id, address, size, content, non_temporal, metadata } => varint(0)
            + varint(id) + varint(address) + varint(size) + enc_bytes(content) + enc_bool(
            non_temporal,
        ) + enc_meta(metadata),
        EntryView::Fence { id, mnemonic, metadata } => varint(1) + varint(id) + enc_str(mnemonic)
            + enc_meta(metadata),
        EntryView::Flush { id, mnemonic, address, metadata } => varint(2) + varint(id) + enc_str(
            mnemonic,
        ) + varint(address) + enc_meta(metadata),
        EntryView::Read { id, address, size, content } => varint(3) + varint(id) + varint(address)
            + varint(size) + enc_bytes(content),
        EntryView::Hypercall { id, action, value } => varint(4) + varint(id) + enc_str(action)
            + enc_str(value),
    }
}

/// Every length in the entry fits in the 64-bit length field.
pub open spec fn entry_fits(e: EntryView) -> bool {
    match e {
        EntryView::Write { content, metadata, .. } => content.len() <= u64::MAX
            && metadata.kernel_stacktrace.len() <= u64::MAX,
        EntryView::Fence { mnemonic, metadata, .. } => encode_utf8(mnemonic).len() <= u64::MAX
            && metadata.kernel_stacktrace.len() <= u64::MAX,
        EntryView::Flush { mnemonic, metadata, .. } => encode_utf8(mnemonic).len() <= u64::MAX
            && metadata.kernel_stacktrace.len() <= u64::MAX,
        EntryView::Read { content, .. } => content.len() <= u64::MAX,
        EntryView::Hypercall { action, value, .. } => encode_utf8(action).len() <= u64::MAX
            && encode_utf8(value).len() <= u64::MAX,
    }
}

pub open spec fn write_at(b: Seq<u8>, p: nat) -> Option<(EntryView, nat)> {
    match varint_at(b, p) {
        None => None,
        Some((id, at1)) => match varint_at(b, at1) {
            None => None,
            Some((address, at2)) => match varint_at(b, at2) {
                None => None,
                Some((size, at3)) => match bytes_at(b, at3) {
                    None => None,
                    Some((content, at4)) => match bool_at(b, at4) {
                        None => None,
                        Some((non_temporal, at5)) => match meta_at(b, at5) {
                            None => None,
                            Some((metadata, at6)) => Some(
                                (
                                    EntryView::Write {
                                        id,
                                        address,
                                        size,
                                        content,
                                        non_temporal,
                                        metadata,
                                    },
                                    at6,
                                ),
                            ),
                        },
                    },
                },
            },
        },
    }
}

pub open spec fn fence_at(b: Seq<u8>, p: nat) -> Option<(EntryView, nat)> {
    match varint_at(b, p) {
        None => None,
        Some((id, at1)) => match str_at(b, at1) {
            None => None,
            Some((mnemonic, at2)) => match meta_at(b, at2) {
                None => None,
                Some((metadata, at3)) => Some((EntryView::Fence { id, mnemonic, metadata }, at3)),
            },
        },
    }
}

pub open spec fn flush_at(b: Seq<u8>, p: nat) -> Option<(EntryView, nat)> {
    match varint_at(b, p) {
        None => None,
        Some((id, at1)) => match str_at(b, at1) {
            None => None,
            Some((mnemonic, at2)) => match varint_at(b, at2) {
                None => None,
                Some((address, at3)) => match meta_at(b, at3) {
                    None => None,
                    Some((metadata, at4)) => Some(
                        (EntryView::Flush { id, mnemonic, address, metadata }, at4),
                    ),
                },
            },
        },
    }
}

pub open spec fn read_at(b: Seq<u8>, p: nat) -> Option<(EntryView, nat)> {
    match varint_at(b, p) {
        None => None,
        Some((id, at1)) => match varint_at(b, at1) {
            None => None,
            Some((address, at2)) => match varint_at(b, at2) {
                None => None,
                Some((size, at3)) => match bytes_at(b, at3) {
                    None => None,
                    Some((content, at4)) => Some(
                        (EntryView::Read { id, address, size, content }, at4),
                    ),
                },
            },
        },
    }
}

pub open spec fn hypercall_at(b: Seq<u8>, p: nat) -> Option<(EntryView, nat)> {
    match varint_at(b, p) {
        None => None,
        Some((id, at1)) => match str_at(b, at1) {
            None => None,
            Some((action, at2)) => match str_at(b, at2) {
                None => None,
                Some((value, at3)) => Some((EntryView::Hypercall { id, action, value }, at3)),
            },
        },
    }
}

/// A variant index: an integer of at most 32 bits, so the 8-byte marker
/// is refused.
pub open spec fn tag_at(b: Seq<u8>, p: nat) -> Option<(u32, nat)> {
    if p < b.len() && b[p as int] == 253 {
        None
    } else {
        match varint_at(b, p) {
            Some((v, q)) => Some((v as u32, q)),
            None => None,
        }
    }
}

/// Reads the variant index that starts at `pos`.
fn read_tag(data: &[u8], pos: usize) -> (r: Option<(u32, usize)>)
    ensures
        at_view(r) == tag_at(data@, pos as nat),
{
    let len = data.len();
    if pos >= len {
        return None;
    }
    proof {
        lemma_varint_shift(data@, pos as nat);
        assert(data@.subrange(pos as int, len as int)[0] == data@[pos as int]);
    }
    match bincode_decode_u32(slice_subrange(data, pos, len)) {
        Some((v, used)) => Some((v, pos + used)),
        None => None,
    }
}

/// The entry that starts at `p`, and the position after it.
pub open spec fn entry_at(b: Seq<u8>, p: nat) -> Option<(EntryView, nat)> {
    match tag_at(b, p) {
        None => None,
        Some((tag, at1)) => if tag == 0 {
            write_at(b, at1)
        } else if tag == 1 {
            fence_at(b, at1)
        } else if tag == 2 {
            flush_at(b, at1)
        } else if tag == 3 {
            read_at(b, at1)
        } else if tag == 4 {
            hypercall_at(b, at1)
        } else {
            None
        },
    }
}

#[verifier::rlimit(40)]
proof fn lemma_write_entry_at(b: Seq<u8>, p: nat, e: EntryView)
    requires
        e is Write,
        entry_fits(e),
        holds_at(b, p, encode_entry_spec(e)),
    ensures
        entry_at(b, p) == Some((e, p + encode_entry_spec(e).len())),
{
    match e {
        EntryView::Write { id, address, size, content, non_temporal, metadata } => {
            let x0 = varint(0);
            let x1 = x0 + varint(id);
            let x2 = x1 + varint(address);
            let x3 = x2 + varint(size);
            let x4 = x3 + enc_bytes(content);
            let x5 = x4 + enc_bool(non_temporal);
            lemma_holds_split(b, p, x5, enc_meta(metadata));
            lemma_holds_split(b, p, x4, enc_bool(non_temporal));
            lemma_holds_split(b, p, x3, enc_bytes(content));
            lemma_holds_split(b, p, x2, varint(size));
            lemma_holds_split(b, p, x1, varint(address));
            lemma_holds_split(b, p, x0, varint(id));
            lemma_varint_at(b, p, 0);
            lemma_varint_at(b, p + x0.len(), id);
            lemma_varint_at(b, p + x1.len(), address);
            lemma_varint_at(b, p + x2.len(), size);
            lemma_bytes_at(b, p + x3.len(), content);
            lemma_bool_at(b, p + x4.len(), non_temporal);
            lemma_meta_at(b, p + x5.len(), metadata);
        },
        _ => {},
    }
}

#[verifier::rlimit(40)]
proof fn lemma_fence_entry_at(b: Seq<u8>, p: nat, e: EntryView)
    requires
        e is Fence,
        entry_fits(e),
        holds_at(b, p, encode_entry_spec(e)),
    ensures
        entry_at(b, p) == Some((e, p + encode_entry_spec(e).len())),
{
    match e {
        EntryView::Fence { id, mnemonic, metadata } => {
            let x0 = varint(1);
            let x1 = x0 + varint(id);
            let x2 = x1 + enc_str(mnemonic);
            lemma_holds_split(b, p, x2, enc_meta(metadata));
            lemma_holds_split(b, p, x1, enc_str(mnemonic));
            lemma_holds_split(b, p, x0, varint(id));
            lemma_varint_at(b, p, 1);
            lemma_varint_at(b, p + x0.len(), id);
            lemma_str_at(b, p + x1.len(), mnemonic);
            lemma_meta_at(b, p + x2.len(), metadata);
        },
        _ => {},
    }
}

#[verifier::rlimit(40)]
proof fn lemma_flush_entry_at(b: Seq<u8>, p: nat, e: EntryView)
    requires
        e is Flush,
        entry_fits(e),
        holds_at(b, p, encode_entry_spec(e)),
    ensures
        entry_at(b, p) == Some((e, p + encode_entry_spec(e).len())),
{
    match e {
        EntryView::Flush { id, mnemonic, address, metadata } => {
            let x0 = varint(2);
            let x1 = x0 + varint(id);
            let x2 = x1 + enc_str(mnemonic);
            let x3 = x2 + varint(address);
            lemma_holds_split(b, p, x3, enc_meta(metadata));
            lemma_holds_split(b, p, x2, varint(address));
            lemma_holds_split(b, p, x1, enc_str(mnemonic));
            lemma_holds_split(b, p, x0, varint(id));
            lemma_varint_at(b, p, 2);
            lemma_varint_at(b, p + x0.len(), id);
            lemma_str_at(b, p + x1.len(), mnemonic);
            lemma_varint_at(b, p + x2.len(), address);
            lemma_meta_at(b, p + x3.len(), metadata);
        },
        _ => {},
    }
}

#[verifier::rlimit(40)]
proof fn lemma_read_entry_at(b: Seq<u8>, p: nat, e: EntryView)
    requires
        e is Read,
        entry_fits(e),
        holds_at(b, p, encode_entry_spec(e)),
    ensures
        entry_at(b, p) == Some((e, p + encode_entry_spec(e).len())),
{
    match e {
        EntryView::Read { id, address, size, content } => {
            let x0 = varint(3);
            let x1 = x0 + varint(id);
            let x2 = x1 + varint(address);
            let x3 = x2 + varint(size);
            lemma_holds_split(b, p, x3, enc_bytes(content));
            lemma_holds_split(b, p, x2, varint(size));
            lemma_holds_split(b, p, x1, varint(address));
            lemma_holds_split(b, p, x0, varint(id));
            lemma_varint_at(b, p, 3);
            lemma_varint_at(b, p + x0.len(), id);
            lemma_varint_at(b, p + x1.len(), address);
            lemma_varint_at(b, p + x2.len(), size);
            lemma_bytes_at(b, p + x3.len(), content);
        },
        _ => {},
    }
}

#[verifier::rlimit(40)]
proof fn lemma_hypercall_entry_at(b: Seq<u8>, p: nat, e: EntryView)
    requires
        e is Hypercall,
        entry_fits(e),
        holds_at(b, p, encode_entry_spec(e)),
    ensures
        entry_at(b, p) == Some((e, p + encode_entry_spec(e).len())),
{
    match e {
        EntryView::Hypercall { id, action, value } => {
            let x0 = varint(4);
            let x1 = x0 + varint(id);
            let x2 = x1 + enc_str(action);
            lemma_holds_split(b, p, x2, enc_str(value));
            lemma_holds_split(b, p, x1, enc_str(action));
            lemma_holds_split(b, p, x0, varint(id));
            lemma_varint_at(b, p, 4);
            lemma_varint_at(b, p + x0.len(), id);
            lemma_str_at(b, p + x1.len(), action);
            lemma_str_at(b, p + x2.len(), value);
        },
        _ => {},
    }
}

proof fn lemma_entry_at(b: Seq<u8>, p: nat, e: EntryView)
    requires
        entry_fits(e),
        holds_at(b, p, encode_entry_spec(e)),
    ensures
        entry_at(b, p) == Some((e, p + encode_entry_spec(e).len())),
{
    match e {
        EntryView::Write { .. } => lemma_write_entry_at(b, p, e),
        EntryView::Fence { .. } => lemma_fence_entry_at(b, p, e),
        EntryView::Flush { .. } => lemma_flush_entry_at(b, p, e),
        EntryView::Read { .. } => lemma_read_entry_at(b, p, e),
        EntryView::Hypercall { .. } => lemma_hypercall_entry_at(b, p, e),
    }
}

/// Decoding the bytes that encoding an entry gives yields that entry again,
/// and stops right after it, whatever bytes follow.
pub proof fn lemma_round_trip(e: EntryView, rest: Seq<u8>)
    requires
        entry_fits(e),
    ensures
        entry_at(encode_entry_spec(e) + rest, 0) == Some((e, encode_entry_spec(e).len())),
{
    let enc = encode_entry_spec(e);
    assert((enc + rest).subrange(0, enc.len() as int) =~= enc);
    lemma_entry_at(enc + rest, 0, e);
}

/// Encodes an entry in the hardware tracer's layout.
pub fn encode_entry(e: &TraceEntry) -> (r: Vec<u8>)
    ensures
        r@ == encode_entry_spec(e@),
{
    let mut out: Vec<u8> = Vec::new();
    match e {
        TraceEntry::Write { id, address, size, content, non_temporal, metadata } => {
            push_varint(&mut out, 0);
            push_varint(&mut out, *id);
            push_varint(&mut out, *address);
            push_varint(&mut out, *size);
            push_bytes(&mut out, content.as_slice());
            push_bool(&mut out, *non_temporal);
            push_meta(&mut out, metadata);
        },
        TraceEntry::Fence { id, mnemonic, metadata } => {
            push_varint(&mut out, 1);
            push_varint(&mut out, *id);
            push_str(&mut out, mnemonic);
            push_meta(&mut out, metadata);
        },
        TraceEntry::Flush { id, mnemonic, address, metadata } => {
            push_varint(&mut out, 2);
            push_varint(&mut out, *id);
            push_str(&mut out, mnemonic);
            push_varint(&mut out, *address);
            push_meta(&mut out, metadata);
        },
        TraceEntry::Read { id, address, size, content } => {
            push_varint(&mut out, 3);
            push_varint(&mut out, *id);
            push_varint(&mut out, *address);
            push_varint(&mut out, *size);
            push_bytes(&mut out, content.as_slice());
        },
        TraceEntry::Hypercall { id, action, value } => {
            push_varint(&mut out, 4);
            push_varint(&mut out, *id);
            push_str(&mut out, action);
            push_str(&mut out, value);
        },
    }
    assert(out@ =~= encode_entry_spec(e@));
    out
}

/// Decodes the entry that starts at `pos`; `None` where no entry in the
/// hardware tracer's layout starts there.
pub fn decode_entry(data: &[u8], pos: usize) -> (r: Option<(TraceEntry, usize)>)
    ensures
        match r {
            Some((e, q)) => entry_at(data@, pos as nat) == Some((e@, q as nat)),
            None => entry_at(data@, pos as nat) is None,
        },
{
    let (tag, at1) = match read_tag(data, pos) {
        Some(x) => x,
        None => return None,
    };
    if tag == 0 {
        let (id, at2) = match read_varint(data, at1) {
            Some(x) => x,
            None => return None,
        };
        let (address, at3) = match read_varint(data, at2) {
            Some(x) => x,
            None => return None,
        };
        let (size, at4) = match read_varint(data, at3) {
            Some(x) => x,
            None => return None,
        };
        let (content, at5) = match read_bytes(data, at4) {
            Some(x) => x,
            None => return None,
        };
        let (non_temporal, at6) = match read_bool(data, at5) {
            Some(x) => x,
            None => return None,
        };
        let (metadata, at7) = match read_meta(data, at6) {
            Some(x) => x,
            None => return None,
        };
        Some((TraceEntry::Write { id, address, size, content, non_temporal, metadata }, at7))
    } else if tag == 1 {
        let (id, at2) = match read_varint(data, at1) {
            Some(x) => x,
            None => return None,
        };
        let (mnemonic, at3) = match read_str(data, at2) {
            Some(x) => x,
            None => return None,
        };
        let (metadata, at4) = match read_meta(data, at3) {
            Some(x) => x,
            None => return None,
        };
        Some((TraceEntry::Fence { id, mnemonic, metadata }, at4))
    } else if tag == 2 {
        let (id, at2) = match read_varint(data, at1) {
            Some(x) => x,
            None => return None,
        };
        let (mnemonic, at3) = match read_str(data, at2) {
            Some(x) => x,
            None => return None,
        };
        let (address, at4) = match read_varint(data, at3) {
            Some(x) => x,
            None => return None,
        };
        let (metadata, at5) = match read_meta(data, at4) {
            Some(x) => x,
            None => return None,
        };
        Some((TraceEntry::Flush { id, mnemonic, address, metadata }, at5))
    } else if tag == 3 {
        let (id, at2) = match read_varint(data, at1) {
            Some(x) => x,
            None => return None,
        };
        let (address, at3) = match read_varint(data, at2) {
            Some(x) => x,
            None => return None,
        };
        let (size, at4) = match read_varint(data, at3) {
            Some(x) => x,
            None => return None,
        };
        let (content, at5) = match read_bytes(data, at4) {
            Some(x) => x,
            None => return None,
        };
        Some((TraceEntry::Read { id, address, size, content }, at5))
    } else if tag == 4 {
        let (id, at2) = match read_varint(data, at1) {
            Some(x) => x,
            None => return None,
        };
        let (action, at3) = match read_str(data, at2) {
            Some(x) => x,
            None => return None,
        };
        let (value, at4) = match read_str(data, at3) {
            Some(x) => x,
            None => return None,
        };
        Some((TraceEntry::Hypercall { id, action, value }, at4))
    } else {
        None
    }
}

/// Mathematical model of a stream of the hardware tracer being decoded.
pub struct PandaModel {
    pub data: Seq<u8>,
    /// offset of the next entry
    pub pos: nat,
    pub done: bool,
}

/// One pull: the stream ends cleanly only where the bytes end between two
/// entries; anything else that is not an entry is an error, after which the
/// stream yields nothing more.
pub open spec fn panda_step(m: PandaModel) -> (PandaModel, Option<Result<EntryView, TraceErrorView>>) {
    let fail = PandaModel { done: true, ..m };
    if m.done {
        (m, None)
    } else if m.pos >= m.data.len() {
        (fail, None)
    } else {
        match entry_at(m.data, m.pos) {
            Some((e, q)) => (PandaModel { pos: q, ..m }, Some(Ok(e))),
            None => (fail, Some(Err(TraceErrorView::MalformedRecord { offset: m.pos as usize }))),
        }
    }
}

/// A stream of the hardware tracer, decoded until its bytes end.
pub struct PandaTraceIterator {
    data: Vec<u8>,
    pos: usize,
    done: bool,
}

impl View for PandaTraceIterator {
    type V = PandaModel;

    closed spec fn view(&self) -> PandaModel {
        PandaModel { data: self.data@, pos: self.pos as nat, done: self.done }
    }
}

impl PandaTraceIterator {
    /// Yields the next entry; `None` at the end of the bytes or after an
    /// error.
    pub fn next(&mut self) -> (r: Option<Result<TraceEntry, TraceError>>)
        ensures
            (final(self)@, crate::mpk::out_view(r)) == panda_step(old(self)@),
    {
        if self.done {
            return None;
        }
        if self.pos >= self.data.len() {
            self.done = true;
            return None;
        }
        match decode_entry(self.data.as_slice(), self.pos) {
            Some((e, q)) => {
                self.pos = q;
                Some(Ok(e))
            },
            None => {
                self.done = true;
                Some(Err(TraceError::MalformedRecord { offset: self.pos }))
            },
        }
    }
}

/// Opens a (decompressed) stream of the hardware tracer.
pub fn parse_trace_file_bin_panda(data: Vec<u8>) -> (r: PandaTraceIterator)
    ensures
        r@ == (PandaModel { data: data@, pos: 0, done: false }),
{
    PandaTraceIterator { data, pos: 0, done: false }
}

/// What snappy's frame format decodes `b` to: `None` where a frame is
/// corrupt or fails its checksum.
pub uninterp spec fn snappy_frames(b: Seq<u8>) -> Option<Seq<u8>>;

/// Relies on `snap::read::FrameDecoder`, read to the end: the decompressed
/// bytes, or an error on a corrupt frame; the result depends on the bytes
/// alone.
#[verifier::external_body]
fn decompress_frames(b: &[u8]) -> (r: Option<Vec<u8>>)
    ensures
        snappy_frames(b@) == (match r {
            Some(v) => Some(v@),
            None => None,
        }),
{
    let mut out = Vec::new();
    match std::io::Read::read_to_end(&mut snap::read::FrameDecoder::new(b), &mut out) {
        Ok(_) => Some(out),
        Err(_) => None,
    }
}

/// Opens a snappy-framed stream of the hardware tracer; a corrupt frame is
/// an error at offset 0 of the compressed bytes.
pub fn parse_trace_file_bin_panda_framed(data: &[u8]) -> (r: Result<PandaTraceIterator, TraceError>)
    ensures
        match snappy_frames(data@) {
            Some(d) => r is Ok && r->Ok_0@ == (PandaModel { data: d, pos: 0, done: false }),
            None => r is Err && r->Err_0@ == (TraceErrorView::MalformedRecord { offset: 0 }),
        },
{
    match decompress_frames(data) {
        Some(d) => Ok(parse_trace_file_bin_panda(d)),
        None => Err(TraceError::MalformedRecord { offset: 0 }),
    }
}

} // verus!
