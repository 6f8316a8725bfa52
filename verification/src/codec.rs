//! The event record codec.
//!
//! Probes emit one fixed-layout record per captured call; this module is the
//! single definition of that layout, shared by the generator model
//! ([`spec_encode_record`], [`encode_record`]) and the decoder ([`decode`]).
//!
//! Layout, little-endian, 64-bit words:
//! bytes 0..20 — traced function's name, NUL-padded, not necessarily
//! NUL-terminated; bytes 20..40 — best-effort copy of the memory the first
//! argument pointed to; bytes 40..48, 48..56, 56..64 — the first three raw
//! argument words.

use vstd::bytes::spec_u64_from_le_bytes;
use vstd::bytes::spec_u64_to_le_bytes;
use vstd::bytes::u64_from_le_bytes;
use vstd::bytes::u64_to_le_bytes;
use vstd::bytes::lemma_auto_spec_u64_to_from_le_bytes;
use vstd::prelude::*;
use vstd::slice::slice_subrange;

use crate::text::dec_chars;
use crate::text::lossy_chars;
use crate::text::lossy_string;
use crate::text::u64_to_dec;
use crate::TraceError;

verus! {

/// Width of the two fixed byte buffers of a record.
pub const FIELD_LEN: usize = 20;

/// Total size of one encoded record: two 20-byte buffers and three 8-byte
/// little-endian words.
pub const RECORD_SIZE: usize = 64;

/// One decoded probe event: the traced function's name, a snapshot of the
/// bytes the first argument pointed to, and the three raw argument words.
#[derive(Debug)]
pub struct EventRecord {
    /// Name of the traced function, NUL-padded to [`FIELD_LEN`] bytes.
    pub libc_function: Vec<u8>,
    /// Bytes read from the memory the first argument pointed to; garbage if
    /// the argument was not a valid pointer.
    pub arg1_contents: Vec<u8>,
    /// Raw value of the first argument word.
    pub arg1: u64,
    /// Raw value of the second argument word.
    pub arg2: u64,
    /// Raw value of the third argument word.
    pub arg3: u64,
}

impl EventRecord {
    /// Both fixed buffers hold exactly [`FIELD_LEN`] bytes.
    pub open spec fn wf(&self) -> bool {
        self.libc_function@.len() == FIELD_LEN && self.arg1_contents@.len() == FIELD_LEN
    }
}

/// Index of the first zero byte of `s`, or `s.len()` if it has none.
pub open spec fn first_zero(s: Seq<u8>) -> int
    decreases s.len(),
{
    if s.len() == 0 {
        0
    } else if s[0] == 0 {
        0
    } else {
        1 + first_zero(s.drop_first())
    }
}

/// The prefix of `s` before its first zero byte; all of `s` if it has none.
pub open spec fn zero_trim(s: Seq<u8>) -> Seq<u8> {
    s.subrange(0, first_zero(s))
}

/// `first_zero` is the unique position with no zero byte before it and a
/// zero byte (or the end of the buffer) at it.
pub proof fn lemma_first_zero(s: Seq<u8>)
    ensures
        0 <= first_zero(s) <= s.len(),
        first_zero(s) < s.len() ==> s[first_zero(s)] == 0,
        forall|j: int| 0 <= j < first_zero(s) ==> s[j] != 0,
    decreases s.len(),
{
    if s.len() != 0 && s[0] != 0 {
        lemma_first_zero(s.drop_first());
        assert forall|j: int| 0 <= j < first_zero(s) implies s[j] != 0 by {
            if j > 0 {
                assert(s.drop_first()[j - 1] != 0);
            }
        }
    }
}

/// A position with no zero byte before it, and a zero byte or the end of
/// the buffer at it, is the first zero.
pub proof fn lemma_first_zero_unique(s: Seq<u8>, k: int)
    requires
        0 <= k <= s.len(),
        forall|j: int| 0 <= j < k ==> s[j] != 0,
        k < s.len() ==> s[k] == 0,
    ensures
        first_zero(s) == k,
{
    lemma_first_zero(s);
}

/// A 20-byte field holding `name` truncated to the field width and padded
/// with zero bytes.
pub open spec fn spec_pad_field(name: Seq<u8>) -> Seq<u8> {
    if name.len() >= FIELD_LEN {
        name.subrange(0, FIELD_LEN as int)
    } else {
        name + Seq::new((FIELD_LEN - name.len()) as nat, |i: int| 0u8)
    }
}

/// The byte layout of one record, as the generated probes emit it.
pub open spec fn spec_encode_record(
    name: Seq<u8>,
    contents: Seq<u8>,
    arg1: u64,
    arg2: u64,
    arg3: u64,
) -> Seq<u8> {
    spec_pad_field(name) + spec_pad_field(contents) + spec_u64_to_le_bytes(arg1)
        + spec_u64_to_le_bytes(arg2) + spec_u64_to_le_bytes(arg3)
}

/// Pads or truncates `name` to exactly [`FIELD_LEN`] bytes.
fn pad_field(name: &[u8]) -> (r: Vec<u8>)
    ensures
        r@ == spec_pad_field(name@),
{
    let mut r: Vec<u8> = Vec::new();
    let n = if name.len() >= FIELD_LEN {
        FIELD_LEN
    } else {
        name.len()
    };
    let mut i: usize = 0;
    while i < n
        invariant
            i <= n,
            n <= name@.len(),
            n <= FIELD_LEN,
            r@ == name@.subrange(0, i as int),
        decreases n - i,
    {
        r.push(name[i]);
        proof {
            assert(r@ =~= name@.subrange(0, i + 1 as int));
        }
        i = i + 1;
    }
    while i < FIELD_LEN
        invariant
            n <= i <= FIELD_LEN,
            n <= name@.len(),
            r@ == name@.subrange(0, n as int) + Seq::new((i - n) as nat, |k: int| 0u8),
        decreases FIELD_LEN - i,
    {
        r.push(0u8);
        proof {
            assert(r@ =~= name@.subrange(0, n as int) + Seq::new(
                (i + 1 - n) as nat,
                |k: int| 0u8,
            ));
        }
        i = i + 1;
    }
    proof {
        assert(r@ =~= spec_pad_field(name@));
    }
    r
}

/// Encodes one record in the probe layout. The model side of the codec:
/// [`decode`] inverts it.
pub fn encode_record(name: &[u8], contents: &[u8], arg1: u64, arg2: u64, arg3: u64) -> (r: Vec<
    u8,
>)
    ensures
        r@ == spec_encode_record(name@, contents@, arg1, arg2, arg3),
        r@.len() == RECORD_SIZE,
{
    let mut r = pad_field(name);
    let mut c = pad_field(contents);
    r.append(&mut c);
    let mut w1 = u64_to_le_bytes(arg1);
    r.append(&mut w1);
    let mut w2 = u64_to_le_bytes(arg2);
    r.append(&mut w2);
    let mut w3 = u64_to_le_bytes(arg3);
    r.append(&mut w3);
    proof {
        lemma_auto_spec_u64_to_from_le_bytes();
        assert(r@ =~= spec_encode_record(name@, contents@, arg1, arg2, arg3));
    }
    r
}

/// Decodes one event buffer against the fixed layout.
///
/// Succeeds if and only if the buffer is at least [`RECORD_SIZE`] bytes;
/// a shorter buffer is a malformed record, never zero-padded. Extra bytes
/// beyond the record are ignored.
pub fn decode(buf: &[u8]) -> (r: Result<EventRecord, TraceError>)
    ensures
        r is Ok <==> buf@.len() >= RECORD_SIZE,
        r matches Ok(rec) ==> {
            &&& rec.wf()
            &&& rec.libc_function@ == buf@.subrange(0, FIELD_LEN as int)
            &&& rec.arg1_contents@ == buf@.subrange(FIELD_LEN as int, 2 * FIELD_LEN as int)
            &&& rec.arg1 == spec_u64_from_le_bytes(buf@.subrange(40, 48))
            &&& rec.arg2 == spec_u64_from_le_bytes(buf@.subrange(48, 56))
            &&& rec.arg3 == spec_u64_from_le_bytes(buf@.subrange(56, 64))
        },
        r matches Err(e) ==> e == TraceError::MalformedRecord,
{
    if buf.len() < RECORD_SIZE {
        return Err(TraceError::MalformedRecord);
    }
    let name = slice_subrange(buf, 0, FIELD_LEN);
    let contents = slice_subrange(buf, FIELD_LEN, 2 * FIELD_LEN);
    let arg1 = u64_from_le_bytes(slice_subrange(buf, 40, 48));
    let arg2 = u64_from_le_bytes(slice_subrange(buf, 48, 56));
    let arg3 = u64_from_le_bytes(slice_subrange(buf, 56, 64));
    let mut libc_function: Vec<u8> = Vec::new();
    let mut i: usize = 0;
    while i < FIELD_LEN
        invariant
            i <= FIELD_LEN,
            name@.len() == FIELD_LEN,
            libc_function@ == name@.subrange(0, i as int),
        decreases FIELD_LEN - i,
    {
        libc_function.push(name[i]);
        proof {
            assert(libc_function@ =~= name@.subrange(0, i + 1 as int));
        }
        i = i + 1;
    }
    let mut arg1_contents: Vec<u8> = Vec::new();
    let mut j: usize = 0;
    while j < FIELD_LEN
        invariant
            j <= FIELD_LEN,
            contents@.len() == FIELD_LEN,
            arg1_contents@ == contents@.subrange(0, j as int),
        decreases FIELD_LEN - j,
    {
        arg1_contents.push(contents[j]);
        proof {
            assert(arg1_contents@ =~= contents@.subrange(0, j + 1 as int));
        }
        j = j + 1;
    }
    proof {
        assert(libc_function@ =~= buf@.subrange(0, FIELD_LEN as int));
        assert(arg1_contents@ =~= buf@.subrange(FIELD_LEN as int, 2 * FIELD_LEN as int));
    }
    Ok(EventRecord { libc_function, arg1_contents, arg1, arg2, arg3 })
}

/// Law: the codec round-trips. For any function name that fits the name
/// field and holds no zero byte, a buffer laid out by [`spec_encode_record`]
/// decodes to a record whose name field, zero-trimmed, is exactly that name,
/// and whose argument words are the ones encoded. In particular, decoding an
/// event emitted by a probe built for a set of function names yields a
/// member of that set.
pub proof fn lemma_record_round_trip(
    name: Seq<u8>,
    contents: Seq<u8>,
    arg1: u64,
    arg2: u64,
    arg3: u64,
)
    requires
        name.len() <= FIELD_LEN,
        forall|j: int| 0 <= j < name.len() ==> name[j] != 0,
    ensures
        ({
            let buf = spec_encode_record(name, contents, arg1, arg2, arg3);
            &&& buf.len() == RECORD_SIZE
            &&& zero_trim(buf.subrange(0, FIELD_LEN as int)) == name
            &&& spec_u64_from_le_bytes(buf.subrange(40, 48)) == arg1
            &&& spec_u64_from_le_bytes(buf.subrange(48, 56)) == arg2
            &&& spec_u64_from_le_bytes(buf.subrange(56, 64)) == arg3
        }),
{
    let buf = spec_encode_record(name, contents, arg1, arg2, arg3);
    let field = spec_pad_field(name);
    lemma_auto_spec_u64_to_from_le_bytes();
    assert(buf.len() == RECORD_SIZE);
    assert(buf.subrange(0, FIELD_LEN as int) =~= field);
    if name.len() < FIELD_LEN {
        assert(field[name.len() as int] == 0);
        lemma_first_zero_unique(field, name.len() as int);
    } else {
        lemma_first_zero_unique(field, FIELD_LEN as int);
    }
    assert(zero_trim(field) =~= name);
    assert(buf.subrange(40, 48) =~= spec_u64_to_le_bytes(arg1));
    assert(buf.subrange(48, 56) =~= spec_u64_to_le_bytes(arg2));
    assert(buf.subrange(56, 64) =~= spec_u64_to_le_bytes(arg3));
}

/// Converts a fixed-size buffer to display text: the bytes before the first
/// zero byte (all of them, if there is none), converted lossily to a string.
/// Never fails, whatever the bytes hold. On a buffer of non-zero ASCII
/// bytes the text keeps the full buffer length, one character per byte; on
/// a buffer starting with a zero byte it is empty.
pub fn get_string(x: &[u8]) -> (r: String)
    ensures
        r@ == lossy_chars(zero_trim(x@)),
        (forall|j: int| 0 <= j < zero_trim(x@).len() ==> zero_trim(x@)[j] < 128) ==> r@
            == zero_trim(x@).map_values(|b: u8| b as char),
        (forall|j: int| 0 <= j < x@.len() ==> x@[j] != 0) ==> zero_trim(x@) == x@,
        x@.len() > 0 && x@[0] == 0 ==> r@.len() == 0,
{
    proof {
        if forall|j: int| 0 <= j < x@.len() ==> x@[j] != 0 {
            lemma_first_zero_unique(x@, x@.len() as int);
            assert(zero_trim(x@) =~= x@);
        }
        if x@.len() > 0 && x@[0] == 0 {
            lemma_first_zero_unique(x@, 0);
            assert(zero_trim(x@) =~= Seq::<u8>::empty());
        }
    }
    let mut i: usize = 0;
    proof {
        lemma_first_zero(x@);
    }
    while i < x.len() && x[i] != 0
        invariant
            i <= x@.len(),
            forall|j: int| 0 <= j < i ==> x@[j] != 0,
            0 <= first_zero(x@) <= x@.len(),
            first_zero(x@) < x@.len() ==> x@[first_zero(x@)] == 0,
            forall|j: int| 0 <= j < first_zero(x@) ==> x@[j] != 0,
        decreases x@.len() - i,
    {
        i = i + 1;
    }
    proof {
        assert(i == first_zero(x@));
    }
    let prefix = slice_subrange(x, 0, i);
    lossy_string(prefix)
}

/// The display line for one record:
/// `name(arg1 [arg1 contents as text],arg2,arg3)`, names and contents
/// zero-trimmed and lossily converted, argument words in decimal.
pub open spec fn spec_render_record(
    name: Seq<u8>,
    contents: Seq<u8>,
    arg1: u64,
    arg2: u64,
    arg3: u64,
) -> Seq<char> {
    lossy_chars(zero_trim(name)) + "("@ + dec_chars(arg1 as nat) + " ["@ + lossy_chars(
        zero_trim(contents),
    ) + "],"@ + dec_chars(arg2 as nat) + ","@ + dec_chars(arg3 as nat) + ")"@
}

/// Renders one decoded record for display.
pub fn render_record(rec: &EventRecord) -> (s: String)
    ensures
        s@ == spec_render_record(
            rec.libc_function@,
            rec.arg1_contents@,
            rec.arg1,
            rec.arg2,
            rec.arg3,
        ),
{
    let mut s = get_string(rec.libc_function.as_slice());
    s.append("(");
    let d1 = u64_to_dec(rec.arg1);
    s.append(d1.as_str());
    s.append(" [");
    let c = get_string(rec.arg1_contents.as_slice());
    s.append(c.as_str());
    s.append("],");
    let d2 = u64_to_dec(rec.arg2);
    s.append(d2.as_str());
    s.append(",");
    let d3 = u64_to_dec(rec.arg3);
    s.append(d3.as_str());
    s.append(")");
    s
}

} // verus!
