use vstd::prelude::*;
use crate::entry::{zero_metadata, EntryView, Metadata, TraceEntry};
use crate::error::{TraceError, TraceErrorView};

verus! {

/// The columns of a line, split at every comma.
pub open spec fn split_commas(s: Seq<char>) -> Seq<Seq<char>>
    decreases s.len(),
{
    if s.len() == 0 {
        seq![Seq::empty()]
    } else {
        let rest = split_commas(s.drop_last());
        if s.last() == ',' {
            rest.push(Seq::empty())
        } else {
            rest.update(rest.len() - 1, rest.last().push(s.last()))
        }
    }
}

pub open spec fn is_digit(c: char) -> bool {
    '0' <= c && c <= '9'
}

/// The value of a string of decimal digits.
pub open spec fn digits_value(s: Seq<char>) -> nat
    decreases s.len(),
{
    if s.len() == 0 {
        0
    } else {
        digits_value(s.drop_last()) * 10 + (s.last() as nat - '0' as nat) as nat
    }
}

/// A string of at least one decimal digit, of a value that fits in 64 bits.
pub open spec fn parse_digits(d: Seq<char>) -> Option<u64> {
    if d.len() > 0 && (forall|i: int| 0 <= i < d.len() ==> is_digit(#[trigger] d[i])) && digits_value(d)
        <= u64::MAX {
        Some(digits_value(d) as u64)
    } else {
        None
    }
}

/// An unsigned integer column: an optional `+`, then the digits.
pub open spec fn parse_number(s: Seq<char>) -> Option<u64> {
    if s.len() > 0 && s[0] == '+' {
        parse_digits(s.drop_first())
    } else {
        parse_digits(s)
    }
}

pub open spec fn is_hex_digit(c: char) -> bool {
    ('0' <= c && c <= '9') || ('a' <= c && c <= 'f') || ('A' <= c && c <= 'F')
}

pub open spec fn hex_value(c: char) -> nat {
    if '0' <= c && c <= '9' {
        (c as nat - '0' as nat) as nat
    } else if 'a' <= c && c <= 'f' {
        (c as nat - 'a' as nat + 10) as nat
    } else {
        (c as nat - 'A' as nat + 10) as nat
    }
}

/// A hex byte string: an even number of hex digits of either case.
pub open spec fn hex_ok(s: Seq<char>) -> bool {
    s.len() % 2 == 0 && forall|i: int| 0 <= i < s.len() ==> is_hex_digit(#[trigger] s[i])
}

/// The bytes of a hex byte string, high digit first in each pair.
pub open spec fn hex_bytes(s: Seq<char>) -> Seq<u8> {
    Seq::new(s.len() / 2, |i: int| (hex_value(s[2 * i]) * 16 + hex_value(s[2 * i + 1])) as u8)
}

/// `c` is the lower-case letter `l`, in either case.
pub open spec fn same_letter(c: char, l: char) -> bool {
    c == l || ('A' <= c && c <= 'Z' && (c as u32) + 32 == l as u32)
}

/// `s` equals the lower-case word `w` but for the case of its letters.
pub open spec fn eq_ignore_case(s: Seq<char>, w: Seq<char>) -> bool {
    s.len() == w.len() && forall|i: int| 0 <= i < s.len() ==> same_letter(#[trigger] s[i], w[i])
}

/// The non-temporal column of a write.
pub open spec fn parse_nt_flag(s: Seq<char>) -> Option<bool> {
    if eq_ignore_case(s, seq!['t', 'r', 'u', 'e']) {
        Some(true)
    } else if eq_ignore_case(s, seq!['f', 'a', 'l', 's', 'e']) {
        Some(false)
    } else {
        None
    }
}

pub open spec fn is_fence(m: Seq<char>) -> bool {
    m == seq!['m', 'f', 'e', 'n', 'c', 'e'] || m == seq!['s', 'f', 'e', 'n', 'c', 'e'] || m == seq![
        'w',
        'b',
        'i',
        'n',
        'v',
        'd',
    ] || m == seq!['x', 'c', 'h', 'g']
}

pub open spec fn is_flush(m: Seq<char>) -> bool {
    m == seq!['c', 'l', 'w', 'b'] || m == seq!['c', 'l', 'f', 'l', 'u', 's', 'h']
}

/// What the text line of 0-based index `index` decodes to: an entry, nothing
/// (an empty line, or a flush of an address outside the traced region), or
/// an error naming its 1-based line number.
pub open spec fn parse_line_spec(index: nat, line: Seq<char>) -> Result<Option<EntryView>, TraceErrorView> {
    let lineno = (index + 1) as usize;
    let id = index as u64;
    let cols = split_commas(line);
    let kind = cols[0];
    if line.len() == 0 {
        Ok(None)
    } else if kind == seq!['w', 'r', 'i', 't', 'e'] {
        if cols.len() != 5 {
            Err(TraceErrorView::WrongArity { line: lineno, expected: 5 })
        } else if parse_number(cols[1]) is None {
            Err(TraceErrorView::InvalidNumber { line: lineno, column: 1 })
        } else if parse_number(cols[2]) is None {
            Err(TraceErrorView::InvalidNumber { line: lineno, column: 2 })
        } else if !hex_ok(cols[3]) {
            Err(TraceErrorView::InvalidHex { line: lineno, column: 3 })
        } else if parse_nt_flag(cols[4]) is None {
            Err(TraceErrorView::InvalidNtFlag { line: lineno, flag: cols[4] })
        } else {
            Ok(
                Some(
                    EntryView::Write {
                        id,
                        address: parse_number(cols[1])->0,
                        size: parse_number(cols[2])->0,
                        content: hex_bytes(cols[3]),
                        non_temporal: parse_nt_flag(cols[4])->0,
                        metadata: zero_metadata(),
                    },
                ),
            )
        }
    } else if kind == seq!['i', 'n', 's', 'n'] {
        if cols.len() != 4 {
            Err(TraceErrorView::WrongArity { line: lineno, expected: 4 })
        } else if cols[2].len() > 0 && parse_number(cols[2]) is None {
            Err(TraceErrorView::InvalidNumber { line: lineno, column: 2 })
        } else if is_fence(cols[1]) {
            Ok(Some(EntryView::Fence { id, mnemonic: cols[1], metadata: zero_metadata() }))
        } else if is_flush(cols[1]) {
            if cols[2].len() == 0 {
                Ok(None)
            } else {
                Ok(
                    Some(
                        EntryView::Flush {
                            id,
                            mnemonic: cols[1],
                            address: parse_number(cols[2])->0,
                            metadata: zero_metadata(),
                        },
                    ),
                )
            }
        } else {
            Err(TraceErrorView::UnsupportedInstruction { line: lineno, mnemonic: cols[1] })
        }
    } else if kind == seq!['r', 'e', 'a', 'd'] {
        if cols.len() != 4 {
            Err(TraceErrorView::WrongArity { line: lineno, expected: 4 })
        } else if parse_number(cols[1]) is None {
            Err(TraceErrorView::InvalidNumber { line: lineno, column: 1 })
        } else if parse_number(cols[2]) is None {
            Err(TraceErrorView::InvalidNumber { line: lineno, column: 2 })
        } else if !hex_ok(cols[3]) {
            Err(TraceErrorView::InvalidHex { line: lineno, column: 3 })
        } else {
            Ok(
                Some(
                    EntryView::Read {
                        id,
                        address: parse_number(cols[1])->0,
                        size: parse_number(cols[2])->0,
                        content: hex_bytes(cols[3]),
                    },
                ),
            )
        }
    } else if kind == seq!['h', 'y', 'p', 'e', 'r', 'c', 'a', 'l', 'l'] {
        if cols.len() != 3 {
            Err(TraceErrorView::WrongArity { line: lineno, expected: 3 })
        } else {
            Ok(Some(EntryView::Hypercall { id, action: cols[1], value: cols[2] }))
        }
    } else {
        Err(TraceErrorView::UnsupportedOperation { line: lineno, op: kind })
    }
}

/// Relies on `str::chars`: the characters of the string, in order.
#[verifier::external_body]
fn chars_of(s: &str) -> (r: Vec<char>)
    ensures
        r@ == s@,
{
    s.chars().collect()
}

/// Relies on `String`'s `FromIterator<&char>`: the characters, in order.
#[verifier::external_body]
fn string_of(v: &Vec<char>) -> (r: String)
    ensures
        r@ == v@,
{
    v.iter().collect()
}

/// Relies on `hex::decode` (through `FromHex for Vec<u8>`): it succeeds
/// exactly on an even number of hex digits of either case, and turns each
/// pair into one byte, high digit first.
#[verifier::external_body]
fn decode_hex(v: &Vec<char>) -> (r: Option<Vec<u8>>)
    ensures
        (r is Some) == hex_ok(v@),
        (r is Some) ==> (r->0@ == hex_bytes(v@)),
{
    let s: String = v.iter().collect();
    hex::decode(s).ok()
}

/// Splits a line into its comma-separated columns.
pub fn split_columns(line: &Vec<char>) -> (r: Vec<Vec<char>>)
    ensures
        r@.len() == split_commas(line@).len(),
        forall|j: int| 0 <= j < r@.len() ==> (#[trigger] r@[j])@ == split_commas(line@)[j],
{
    let mut cols: Vec<Vec<char>> = Vec::new();
    let mut cur: Vec<char> = Vec::new();
    let n = line.len();
    let mut i: usize = 0;
    while i < n
        invariant
            i <= n == line@.len(),
            cols@.len() + 1 == split_commas(line@.take(i as int)).len(),
            forall|j: int| 0 <= j < cols@.len() ==> (#[trigger] cols@[j])@ == split_commas(line@.take(i as int))[j],
            cur@ == split_commas(line@.take(i as int)).last(),
        decreases n - i,
    {
        let c = line[i];
        proof {
            assert(line@.take(i + 1).drop_last() == line@.take(i as int));
            assert(line@.take(i + 1).last() == c);
        }
        if c == ',' {
            cols.push(cur);
            cur = Vec::new();
        } else {
            cur.push(c);
        }
        i = i + 1;
    }
    cols.push(cur);
    proof {
        assert(line@.take(n as int) == line@);
    }
    cols
}

/// Whether two character vectors hold the same characters.
fn same_chars(a: &Vec<char>, b: &Vec<char>) -> (r: bool)
    ensures
        r == (a@ == b@),
{
    if a.len() != b.len() {
        return false;
    }
    let mut i: usize = 0;
    while i < a.len()
        invariant
            i <= a@.len() == b@.len(),
            forall|j: int| 0 <= j < i ==> a@[j] == b@[j],
        decreases a@.len() - i,
    {
        if a[i] != b[i] {
            return false;
        }
        i = i + 1;
    }
    assert(a@ =~= b@);
    true
}

/// Whether `s` is the lower-case word `w` but for the case of its letters.
fn same_ignoring_case(s: &Vec<char>, w: &Vec<char>) -> (r: bool)
    ensures
        r == eq_ignore_case(s@, w@),
{
    if s.len() != w.len() {
        return false;
    }
    let mut i: usize = 0;
    while i < s.len()
        invariant
            i <= s@.len() == w@.len(),
            forall|j: int| 0 <= j < i ==> same_letter(#[trigger] s@[j], w@[j]),
        decreases s@.len() - i,
    {
        let c = s[i];
        let l = w[i];
        if !(c == l || ('A' <= c && c <= 'Z' && (c as u32) + 32 == l as u32)) {
            return false;
        }
        i = i + 1;
    }
    true
}

proof fn lemma_digits_prefix(t: Seq<char>, k: int)
    requires
        0 <= k <= t.len(),
        forall|i: int| 0 <= i < t.len() ==> is_digit(#[trigger] t[i]),
    ensures
        digits_value(t.take(k)) <= digits_value(t),
    decreases t.len(),
{
    if k < t.len() {
        lemma_digits_prefix(t.drop_last(), k);
        assert(t.drop_last().take(k) == t.take(k));
    } else {
        assert(t.take(k) == t);
    }
}

proof fn lemma_split_nonempty(s: Seq<char>)
    ensures
        split_commas(s).len() >= 1,
    decreases s.len(),
{
    if s.len() > 0 {
        lemma_split_nonempty(s.drop_last());
    }
}

/// Reads an unsigned integer column.
fn parse_u64(s: &Vec<char>) -> (r: Option<u64>)
    ensures
        r == parse_number(s@),
{
    let n = s.len();
    let start: usize = if n > 0 && s[0] == '+' {
        1
    } else {
        0
    };
    let ghost d = if s@.len() > 0 && s@[0] == '+' {
        s@.drop_first()
    } else {
        s@
    };
    assert(d == s@.subrange(start as int, n as int));
    assert(parse_number(s@) == parse_digits(d));
    if start >= n {
        return None;
    }
    let mut acc: u64 = 0;
    let mut i: usize = start;
    while i < n
        invariant
            start <= i <= n == s@.len(),
            start < n,
            d == s@.subrange(start as int, n as int),
            parse_number(s@) == parse_digits(d),
            forall|j: int| start <= j < i ==> is_digit(#[trigger] s@[j]),
            acc == digits_value(s@.subrange(start as int, i as int)),
        decreases n - i,
    {
        let c = s[i];
        if !('0' <= c && c <= '9') {
            assert(d[i - start] == c);
            assert(!is_digit(d[i - start]));
            return None;
        }
        let dig = ((c as u32) - ('0' as u32)) as u64;
        proof {
            assert(s@.subrange(start as int, i + 1).drop_last() == s@.subrange(start as int, i as int));
        }
        if acc > (u64::MAX - dig) / 10 {
            proof {
                let p = s@.subrange(start as int, i + 1);
                assert(p.last() == c);
                assert(acc * 10 + dig > u64::MAX) by (nonlinear_arith)
                    requires
                        acc > (u64::MAX - dig) / 10,
                        dig <= 9,
                ;
                assert(digits_value(p) > u64::MAX);
                if forall|j: int| 0 <= j < d.len() ==> is_digit(#[trigger] d[j]) {
                    lemma_digits_prefix(d, i + 1 - start);
                    assert(d.take(i + 1 - start) == p);
                }
            }
            return None;
        }
        acc = acc * 10 + dig;
        i = i + 1;
    }
    proof {
        assert(s@.subrange(start as int, n as int) == d);
        assert forall|j: int| 0 <= j < d.len() implies is_digit(#[trigger] d[j]) by {
            assert(d[j] == s@[start + j]);
        }
    }
    Some(acc)
}

/// Reads the non-temporal column of a write.
fn parse_nt(s: &Vec<char>) -> (r: Option<bool>)
    ensures
        r == parse_nt_flag(s@),
{
    if same_ignoring_case(s, &vec!['t', 'r', 'u', 'e']) {
        Some(true)
    } else if same_ignoring_case(s, &vec!['f', 'a', 'l', 's', 'e']) {
        Some(false)
    } else {
        None
    }
}

/// The model of what one text line decodes to.
pub open spec fn line_view(r: Result<Option<TraceEntry>, TraceError>) -> Result<Option<EntryView>, TraceErrorView> {
    match r {
        Ok(Some(e)) => Ok(Some(e@)),
        Ok(None) => Ok(None),
        Err(e) => Err(e@),
    }
}

/// Decodes the text line of 0-based index `index`; its entry's id is the
/// index.
pub fn parse_trace_line(index: usize, line: &str) -> (r: Result<Option<TraceEntry>, TraceError>)
    requires
        index < usize::MAX,
    ensures
        line_view(r) == parse_line_spec(index as nat, line@),
{
    let chars = chars_of(line);
    let lineno = index + 1;
    let id = index as u64;
    if chars.len() == 0 {
        return Ok(None);
    }
    let cols = split_columns(&chars);
    proof {
        lemma_split_nonempty(line@);
    }
    let ghost sc = split_commas(line@);
    let kind = &cols[0];
    if same_chars(kind, &vec!['w', 'r', 'i', 't', 'e']) {
        if cols.len() != 5 {
            return Err(TraceError::WrongArity { line: lineno, expected: 5 });
        }
        assert(cols@[1]@ == sc[1] && cols@[2]@ == sc[2] && cols@[3]@ == sc[3] && cols@[4]@ == sc[4]);
        let address = match parse_u64(&cols[1]) {
            Some(a) => a,
            None => return Err(TraceError::InvalidNumber { line: lineno, column: 1 }),
        };
        let size = match parse_u64(&cols[2]) {
            Some(a) => a,
            None => return Err(TraceError::InvalidNumber { line: lineno, column: 2 }),
        };
        let content = match decode_hex(&cols[3]) {
            Some(c) => c,
            None => return Err(TraceError::InvalidHex { line: lineno, column: 3 }),
        };
        let non_temporal = match parse_nt(&cols[4]) {
            Some(b) => b,
            None => return Err(TraceError::InvalidNtFlag { line: lineno, flag: string_of(&cols[4]) }),
        };
        return Ok(
            Some(
                TraceEntry::Write {
                    id,
                    address,
                    size,
                    content,
                    non_temporal,
                    metadata: Metadata::zeroed(),
                },
            ),
        );
    }
    if same_chars(kind, &vec!['i', 'n', 's', 'n']) {
        if cols.len() != 4 {
            return Err(TraceError::WrongArity { line: lineno, expected: 4 });
        }
        assert(cols@[1]@ == sc[1] && cols@[2]@ == sc[2]);
        let mnemonic = &cols[1];
        let address = if cols[2].len() == 0 {
            None
        } else {
            match parse_u64(&cols[2]) {
                Some(a) => Some(a),
                None => return Err(TraceError::InvalidNumber { line: lineno, column: 2 }),
            }
        };
        if same_chars(mnemonic, &vec!['m', 'f', 'e', 'n', 'c', 'e']) || same_chars(
            mnemonic,
            &vec!['s', 'f', 'e', 'n', 'c', 'e'],
        ) || same_chars(mnemonic, &vec!['w', 'b', 'i', 'n', 'v', 'd']) || same_chars(
            mnemonic,
            &vec!['x', 'c', 'h', 'g'],
        ) {
            return Ok(
                Some(
                    TraceEntry::Fence {
                        id,
                        mnemonic: string_of(mnemonic),
                        metadata: Metadata::zeroed(),
                    },
                ),
            );
        }
        if same_chars(mnemonic, &vec!['c', 'l', 'w', 'b']) || same_chars(
            mnemonic,
            &vec!['c', 'l', 'f', 'l', 'u', 's', 'h'],
        ) {
            return match address {
                Some(address) => Ok(
                    Some(
                        TraceEntry::Flush {
                            id,
                            mnemonic: string_of(mnemonic),
                            address,
                            metadata: Metadata::zeroed(),
                        },
                    ),
                ),
                None => Ok(None),
            };
        }
        return Err(TraceError::UnsupportedInstruction { line: lineno, mnemonic: string_of(mnemonic) });
    }
    if same_chars(kind, &vec!['r', 'e', 'a', 'd']) {
        if cols.len() != 4 {
            return Err(TraceError::WrongArity { line: lineno, expected: 4 });
        }
        assert(cols@[1]@ == sc[1] && cols@[2]@ == sc[2] && cols@[3]@ == sc[3]);
        let address = match parse_u64(&cols[1]) {
            Some(a) => a,
            None => return Err(TraceError::InvalidNumber { line: lineno, column: 1 }),
        };
        let size = match parse_u64(&cols[2]) {
            Some(a) => a,
            None => return Err(TraceError::InvalidNumber { line: lineno, column: 2 }),
        };
        let content = match decode_hex(&cols[3]) {
            Some(c) => c,
            None => return Err(TraceError::InvalidHex { line: lineno, column: 3 }),
        };
        return Ok(Some(TraceEntry::Read { id, address, size, content }));
    }
    if same_chars(kind, &vec!['h', 'y', 'p', 'e', 'r', 'c', 'a', 'l', 'l']) {
        if cols.len() != 3 {
            return Err(TraceError::WrongArity { line: lineno, expected: 3 });
        }
        assert(cols@[1]@ == sc[1] && cols@[2]@ == sc[2]);
        return Ok(
            Some(TraceEntry::Hypercall { id, action: string_of(&cols[1]), value: string_of(&cols[2]) }),
        );
    }
    Err(TraceError::UnsupportedOperation { line: lineno, op: string_of(kind) })
}

/// Turns a decoded line into an item of a sequence of results: nothing for a
/// line that yields no entry.
pub fn lift_option<T>(r: Result<Option<T>, TraceError>) -> (o: Option<Result<T, TraceError>>)
    ensures
        o == (match r {
            Ok(None) => None,
            Ok(Some(x)) => Some(Ok(x)),
            Err(e) => Some(Err(e)),
        }),
{
    match r {
        Ok(None) => None,
        Ok(Some(o)) => Some(Ok(o)),
        Err(e) => Some(Err(e)),
    }
}

/// The results of the first `k` lines of a text trace: a line that yields
/// no entry adds nothing, and the first error ends the results.
pub open spec fn text_results(lines: Seq<Seq<char>>, k: nat) -> Seq<Result<EntryView, TraceErrorView>>
    decreases k,
{
    if k == 0 {
        Seq::empty()
    } else {
        let prev = text_results(lines, (k - 1) as nat);
        if prev.len() > 0 && prev.last() is Err {
            prev
        } else {
            match parse_line_spec((k - 1) as nat, lines[k - 1]) {
            Ok(None) => prev,
            Ok(Some(e)) => prev.push(Ok(e)),
            Err(e) => prev.push(Err(e)),
            }
        }
    }
}

pub open spec fn result_view(x: Result<TraceEntry, TraceError>) -> Result<EntryView, TraceErrorView> {
    match x {
        Ok(e) => Ok(e@),
        Err(e) => Err(e@),
    }
}

pub open spec fn lines_view(lines: Seq<String>) -> Seq<Seq<char>> {
    lines.map_values(|l: String| l@)
}

/// Decodes a text trace, one line per element of `lines`; the first error
/// is the last result.
pub fn parse_trace_file_text(lines: &Vec<String>) -> (r: Vec<Result<TraceEntry, TraceError>>)
    ensures
        r@.map_values(|x: Result<TraceEntry, TraceError>| result_view(x)) == text_results(
            lines_view(lines@),
            lines@.len(),
        ),
{
    let mut out: Vec<Result<TraceEntry, TraceError>> = Vec::new();
    let n = lines.len();
    let mut i: usize = 0;
    let mut stopped = false;
    while i < n
        invariant
            i <= n == lines@.len(),
            stopped == (out@.len() > 0 && out@.last() is Err),
            out@.map_values(|x: Result<TraceEntry, TraceError>| result_view(x)) == text_results(
                lines_view(lines@),
                i as nat,
            ),
        decreases n - i,
    {
        let ghost before = out@;
        proof {
            if before.len() > 0 {
                assert(before.map_values(|x: Result<TraceEntry, TraceError>| result_view(x)).last()
                    == result_view(before.last()));
            }
        }
        if !stopped {
            let r = parse_trace_line(i, lines[i].as_str());
            match lift_option(r) {
                Some(x) => {
                    stopped = x.is_err();
                    out.push(x);
                    assert(out@.map_values(|x: Result<TraceEntry, TraceError>| result_view(x))
                        =~= before.map_values(|x: Result<TraceEntry, TraceError>| result_view(x)).push(
                        result_view(x),
                    ));
                },
                None => {},
            }
        }
        i = i + 1;
    }
    out
}

} // verus!
