//! The protobuf wire format of the indexer service's messages.
//!
//! Messages are encoded as proto3 does it: fields in field-number order, a
//! field at its default value (zero, empty, `false`) left out, integers as
//! base-128 varints and byte strings length-delimited.

use vstd::prelude::*;

verus! {

/// `128` to the power `n`.
pub open spec fn pow128(n: nat) -> nat
    decreases n,
{
    if n == 0 {
        1
    } else {
        128 * pow128((n - 1) as nat)
    }
}

/// The varint encoding of `v`: seven bits per byte, least significant first,
/// the high bit set on every byte but the last.
pub open spec fn varint(v: u64) -> Seq<u8>
    decreases v,
{
    if v < 128 {
        seq![v as u8]
    } else {
        seq![((v % 128) + 128) as u8] + varint(v / 128)
    }
}

/// The value of the first `n` bytes of `b` read as varint digits.
pub open spec fn digits_value(b: Seq<u8>, n: nat) -> int
    decreases n,
{
    if n == 0 {
        0
    } else {
        digits_value(b, (n - 1) as nat) + (b[n - 1] % 128) as int * pow128((n - 1) as nat)
    }
}

/// Whether a varint starting at the front of `b` ends with its `n`-th byte.
pub open spec fn varint_ends_at(b: Seq<u8>, n: nat) -> bool {
    &&& 1 <= n <= 10
    &&& n <= b.len()
    &&& b[n - 1] < 128
    &&& forall|k: int| 0 <= k < n - 1 ==> b[k] >= 128
}

/// Reading a varint from the start of `b`: its value and length, or `None`
/// if `b` ends inside the varint or the varint exceeds ten bytes or 64 bits.
pub open spec fn read_varint(b: Seq<u8>) -> Option<(u64, nat)> {
    if exists|n: nat| #[trigger] varint_ends_at(b, n) {
        let n = choose|n: nat| #[trigger] varint_ends_at(b, n);
        if n == 10 && b[9] > 1 {
            None
        } else {
            Some((digits_value(b, n) as u64, n))
        }
    } else {
        None
    }
}

/// At most one length ends a varint.
pub proof fn lemma_varint_end_unique(b: Seq<u8>, m: nat, n: nat)
    requires
        varint_ends_at(b, m),
        varint_ends_at(b, n),
    ensures
        m == n,
{
    if m < n {
        assert(b[m - 1] >= 128);
    }
    if n < m {
        assert(b[n - 1] >= 128);
    }
}

proof fn lemma_pow128_pos(n: nat)
    ensures
        pow128(n) >= 1,
    decreases n,
{
    if n > 0 {
        lemma_pow128_pos((n - 1) as nat);
    }
}

proof fn lemma_pow128_mono(a: nat, b: nat)
    requires
        a <= b,
    ensures
        pow128(a) <= pow128(b),
    decreases b,
{
    if a < b {
        lemma_pow128_mono(a, (b - 1) as nat);
        lemma_pow128_pos((b - 1) as nat);
    }
}

proof fn lemma_digits_bound(b: Seq<u8>, n: nat)
    requires
        n <= b.len(),
    ensures
        0 <= digits_value(b, n) < pow128(n),
    decreases n,
{
    if n > 0 {
        lemma_digits_bound(b, (n - 1) as nat);
        let d = (b[n - 1] % 128) as int;
        let p = pow128((n - 1) as nat);
        assert(d * p <= 127 * p) by (nonlinear_arith)
            requires
                0 <= d <= 127,
                p >= 1,
        ;
        assert(pow128(n) == 128 * p);
    }
}

proof fn lemma_digits_prefix(b: Seq<u8>, c: Seq<u8>, n: nat)
    requires
        n <= b.len(),
        n <= c.len(),
        forall|k: int| 0 <= k < n ==> b[k] == c[k],
    ensures
        digits_value(b, n) == digits_value(c, n),
    decreases n,
{
    if n > 0 {
        lemma_digits_prefix(b, c, (n - 1) as nat);
    }
}

/// The digits of `varint(v)` read back as `v`, every byte but the last
/// carrying the continuation bit.
pub proof fn lemma_varint_digits(v: u64)
    ensures
        varint(v).len() >= 1,
        forall|k: int| 0 <= k < varint(v).len() - 1 ==> varint(v)[k] >= 128,
        varint(v)[varint(v).len() - 1] < 128,
        digits_value(varint(v), varint(v).len()) == v,
    decreases v,
{
    if v < 128 {
        let s = varint(v);
        assert(pow128(0) == 1);
        assert(digits_value(s, 1) == digits_value(s, 0) + (s[0] % 128) as int * pow128(0));
    } else {
        let w = (v / 128) as u64;
        lemma_varint_digits(w);
        let tail = varint(w);
        let s = varint(v);
        assert(s == seq![((v % 128) + 128) as u8] + tail);
        lemma_digits_shift(v, tail, s, tail.len());
        assert(s.len() == tail.len() + 1);
        assert(v == (v % 128) + 128 * (v / 128));
        assert forall|k: int| 0 <= k < s.len() - 1 implies s[k] >= 128 by {
            if k > 0 {
                assert(s[k] == tail[k - 1]);
            }
        }
    }
}

proof fn lemma_varint_short(v: u64, k: nat)
    requires
        k >= 1,
        v < pow128(k),
    ensures
        varint(v).len() <= k,
    decreases k,
{
    if v >= 128 {
        if k == 1 {
            assert(pow128(1) == 128 * pow128(0));
        } else {
            let p = pow128((k - 1) as nat);
            assert(pow128(k) == 128 * p);
            assert((v / 128) < p) by (nonlinear_arith)
                requires
                    v < 128 * p,
                    v >= 0,
            ;
            lemma_varint_short((v / 128) as u64, (k - 1) as nat);
        }
    }
}

proof fn lemma_varint_top(v: u64, k: nat)
    requires
        k >= 1,
        v < 2 * pow128((k - 1) as nat),
        varint(v).len() == k,
    ensures
        varint(v)[k - 1] <= 1,
    decreases k,
{
    if k == 1 {
        if v >= 128 {
            lemma_varint_digits((v / 128) as u64);
        }
    } else {
        if v < 128 {
        } else {
            let w = (v / 128) as u64;
            let p = pow128((k - 2) as nat);
            assert(pow128((k - 1) as nat) == 128 * p);
            assert(w < 2 * p) by (nonlinear_arith)
                requires
                    v < 256 * p,
                    w == v / 128,
                    v >= 0,
            ;
            assert(varint(v) == seq![((v % 128) + 128) as u8] + varint(w));
            lemma_varint_top(w, (k - 1) as nat);
        }
    }
}

/// `varint(v)` is at most ten bytes, and a tenth byte is at most one, so
/// reading it back gives `v` and its length.
pub proof fn lemma_varint_roundtrip(v: u64, rest: Seq<u8>)
    ensures
        1 <= varint(v).len() <= 10,
        read_varint(varint(v) + rest) == Some((v, varint(v).len())),
{
    lemma_varint_digits(v);
    reveal_with_fuel(pow128, 11);
    assert(pow128(10) > u64::MAX);
    lemma_varint_short(v, 10);
    let s = varint(v);
    let b = s + rest;
    let n = s.len();
    if n == 10 {
        assert(pow128(9) == 0x8000000000000000);
        lemma_varint_top(v, 10);
    }
    assert(varint_ends_at(b, n));
    let m = choose|m: nat| #[trigger] varint_ends_at(b, m);
    lemma_varint_end_unique(b, m, n);
    lemma_digits_prefix(b, s, n);
}

proof fn lemma_digits_shift(v: u64, tail: Seq<u8>, s: Seq<u8>, n: nat)
    requires
        s == seq![((v % 128) + 128) as u8] + tail,
        n <= tail.len(),
    ensures
        digits_value(s, n + 1) == (v % 128) as int + 128 * digits_value(tail, n),
    decreases n,
{
    if n == 0 {
        assert(pow128(0) == 1);
        assert(s[0] == ((v % 128) + 128) as u8);
        assert(s[0] % 128 == v % 128);
        assert(digits_value(s, 1) == digits_value(s, 0) + (s[0] % 128) as int * pow128(0));
        assert(digits_value(tail, 0) == 0);
    } else {
        lemma_digits_shift(v, tail, s, (n - 1) as nat);
        assert(s[n as int] == tail[n - 1]);
        assert(digits_value(s, n + 1) == digits_value(s, n) + (s[n as int] % 128) as int * pow128(
            n,
        ));
        assert(digits_value(tail, n) == digits_value(tail, (n - 1) as nat) + (tail[n - 1] % 128) as int
            * pow128((n - 1) as nat));
        assert(pow128(n) == 128 * pow128((n - 1) as nat));
        let d = (tail[n - 1] % 128) as int;
        assert(d * pow128(n) == 128 * (d * pow128((n - 1) as nat))) by (nonlinear_arith)
            requires
                pow128(n) == 128 * pow128((n - 1) as nat),
        ;
    }
}

} // verus!

verus! {

/// Appends the varint encoding of `v`.
pub fn encode_varint(v: u64, out: &mut Vec<u8>)
    ensures
        final(out)@ == old(out)@ + varint(v),
{
    let ghost start = out@;
    let mut x = v;
    while x >= 128
        invariant
            out@ + varint(x) == start + varint(v),
        decreases x,
    {
        let ghost before = out@;
        out.push((x % 128 + 128) as u8);
        proof {
            assert(varint(x) == seq![((x % 128) + 128) as u8] + varint(x / 128));
            assert(out@ + varint(x / 128) =~= before + varint(x));
        }
        x = x / 128;
    }
    let ghost before = out@;
    out.push(x as u8);
    assert(out@ =~= before + varint(x));
}

/// Reads a varint from `b` at position `start`: its value and the number of
/// bytes it takes.
pub fn decode_varint(b: &Vec<u8>, start: usize) -> (r: Option<(u64, usize)>)
    requires
        start <= b@.len(),
    ensures
        match read_varint(b@.skip(start as int)) {
            None => r is None,
            Some((v, n)) => r == Some((v, n as usize)),
        },
{
    let ghost bs = b@.skip(start as int);
    let mut value: u64 = 0;
    let mut pow: u64 = 1;
    let mut i: usize = 0;
    loop
        invariant
            bs == b@.skip(start as int),
            start <= b@.len(),
            i <= 9,
            i <= bs.len(),
            pow == pow128(i as nat),
            value == digits_value(bs, i as nat),
            pow <= 0x8000000000000000,
            forall|k: int| 0 <= k < i ==> bs[k] >= 128,
        decreases 10 - i,
    {
        proof {
            lemma_digits_bound(bs, i as nat);
            reveal_with_fuel(pow128, 10);
            lemma_pow128_mono(i as nat, 9);
            assert(pow128(9) == 0x8000000000000000);
        }
        if i >= b.len() - start {
            proof {
                assert forall|n: nat| !varint_ends_at(bs, n) by {
                    if varint_ends_at(bs, n) {
                        assert(n <= i);
                        assert(bs[n - 1] >= 128);
                    }
                }
            }
            return None;
        }
        let byte = b[start + i];
        assert(bs[i as int] == byte);
        if byte < 128 {
            proof {
                assert(varint_ends_at(bs, (i + 1) as nat));
                let m = choose|m: nat| #[trigger] varint_ends_at(bs, m);
                lemma_varint_end_unique(bs, m, (i + 1) as nat);
            }
            if i == 9 && byte > 1 {
                return None;
            }
            proof {
                assert(digits_value(bs, (i + 1) as nat) == value + (byte % 128) as int * pow);
                assert((byte as int) * (pow as int) < 0x10000000000000000 - value) by (
                nonlinear_arith)
                    requires
                        (i < 9 ==> pow * 128 <= 0x8000000000000000),
                        (i == 9 ==> byte <= 1),
                        byte < 128,
                        value < pow,
                        pow <= 0x8000000000000000,
                        i <= 9,
                ;
                if i < 9 {
                    lemma_pow128_mono((i + 1) as nat, 9);
                    assert(pow128((i + 1) as nat) == 128 * pow);
                }
            }
            let total = value + (byte as u64) * pow;
            return Some((total, i + 1));
        }
        if i == 9 {
            proof {
                assert forall|n: nat| !varint_ends_at(bs, n) by {
                    if varint_ends_at(bs, n) {
                        assert(bs[n - 1] >= 128);
                    }
                }
            }
            return None;
        }
        proof {
            lemma_pow128_mono((i + 1) as nat, 9);
            assert(pow128((i + 1) as nat) == 128 * pow);
            assert(digits_value(bs, (i + 1) as nat) == value + (byte % 128) as int * pow);
            assert(((byte % 128) as int) * (pow as int) <= 127 * (pow as int)) by (nonlinear_arith)
                requires
                    byte % 128 <= 127,
            ;
        }
        value = value + ((byte % 128) as u64) * pow;
        pow = pow * 128;
        i += 1;
    }
}

} // verus!

verus! {

/// The key of field `field` with wire type `wire_type`, for field numbers
/// below sixteen: one byte.
pub open spec fn key_byte(field: u8, wire_type: u8) -> u8 {
    (field * 8 + wire_type) as u8
}

/// A `uint64` field: left out when zero.
pub open spec fn uint64_field(field: u8, v: u64) -> Seq<u8> {
    if v == 0 {
        Seq::empty()
    } else {
        seq![key_byte(field, 0)] + varint(v)
    }
}

/// A `bool` field: left out when false.
pub open spec fn bool_field(field: u8, v: bool) -> Seq<u8> {
    if v {
        seq![key_byte(field, 0), 1u8]
    } else {
        Seq::empty()
    }
}

/// A length-delimited field: its key, its length and its bytes.
pub open spec fn delimited(field: u8, bytes: Seq<u8>) -> Seq<u8> {
    seq![key_byte(field, 2)] + varint(bytes.len() as u64) + bytes
}

/// A `bytes` or `string` field: left out when empty.
pub open spec fn bytes_field(field: u8, bytes: Seq<u8>) -> Seq<u8> {
    if bytes.len() == 0 {
        Seq::empty()
    } else {
        delimited(field, bytes)
    }
}

fn push_key(field: u8, wire_type: u8, out: &mut Vec<u8>)
    requires
        1 <= field <= 15,
        wire_type <= 7,
    ensures
        final(out)@ == old(out)@.push(key_byte(field, wire_type)),
{
    out.push(field * 8 + wire_type);
}

/// Appends `bytes`.
pub fn push_all(bytes: &[u8], out: &mut Vec<u8>)
    ensures
        final(out)@ == old(out)@ + bytes@,
{
    let ghost start = out@;
    let mut i: usize = 0;
    while i < bytes.len()
        invariant
            i <= bytes@.len(),
            out@ == start + bytes@.take(i as int),
        decreases bytes.len() - i,
    {
        out.push(bytes[i]);
        i += 1;
        assert(out@ =~= start + bytes@.take(i as int));
    }
    assert(bytes@.take(bytes@.len() as int) =~= bytes@);
}

/// Appends a `uint64` field.
pub fn encode_uint64_field(field: u8, v: u64, out: &mut Vec<u8>)
    requires
        1 <= field <= 15,
    ensures
        final(out)@ == old(out)@ + uint64_field(field, v),
{
    let ghost start = out@;
    if v != 0 {
        push_key(field, 0, out);
        encode_varint(v, out);
        assert(out@ =~= start + uint64_field(field, v));
    } else {
        assert(out@ =~= start + uint64_field(field, v));
    }
}

/// Appends a `bool` field.
pub fn encode_bool_field(field: u8, v: bool, out: &mut Vec<u8>)
    requires
        1 <= field <= 15,
    ensures
        final(out)@ == old(out)@ + bool_field(field, v),
{
    let ghost start = out@;
    if v {
        push_key(field, 0, out);
        out.push(1u8);
    }
    assert(out@ =~= start + bool_field(field, v));
}

/// Appends a length-delimited field, even when empty.
pub fn encode_delimited(field: u8, bytes: &[u8], out: &mut Vec<u8>)
    requires
        1 <= field <= 15,
    ensures
        final(out)@ == old(out)@ + delimited(field, bytes@),
{
    let ghost start = out@;
    push_key(field, 2, out);
    encode_varint(bytes.len() as u64, out);
    push_all(bytes, out);
    assert(out@ =~= start + delimited(field, bytes@));
}

/// Appends a `bytes` or `string` field.
pub fn encode_bytes_field(field: u8, bytes: &[u8], out: &mut Vec<u8>)
    requires
        1 <= field <= 15,
    ensures
        final(out)@ == old(out)@ + bytes_field(field, bytes@),
{
    let ghost start = out@;
    if bytes.len() != 0 {
        encode_delimited(field, bytes, out);
    } else {
        assert(out@ =~= start + bytes_field(field, bytes@));
    }
}

/// The UTF-8 bytes of a string.
pub open spec fn utf8(s: Seq<char>) -> Seq<u8> {
    vstd::utf8::encode_utf8(s)
}

/// `CreateTableRequest { sequence_number = 1, table_name = 2,
/// arrow_schema = 3, key = 4 }`.
pub open spec fn create_table_request(
    sequence_number: u64,
    table_name: Seq<char>,
    arrow_schema: Seq<u8>,
    key: Seq<char>,
) -> Seq<u8> {
    uint64_field(1, sequence_number) + bytes_field(2, utf8(table_name)) + bytes_field(
        3,
        arrow_schema,
    ) + bytes_field(4, utf8(key))
}

/// `DropTableRequest { sequence_number = 1, table_name = 2 }`.
pub open spec fn drop_table_request(sequence_number: u64, table_name: Seq<char>) -> Seq<u8> {
    uint64_field(1, sequence_number) + bytes_field(2, utf8(table_name))
}

/// `TableBatch { table_name = 1, record_batch = 2 }`.
pub open spec fn table_batch(table_name: Seq<char>, record_batch: Seq<u8>) -> Seq<u8> {
    bytes_field(1, utf8(table_name)) + bytes_field(2, record_batch)
}

/// The batches of a `PutBatchesRequest`, each as field 2.
pub open spec fn batches_field(batches: Seq<(Seq<char>, Seq<u8>)>) -> Seq<u8>
    decreases batches.len(),
{
    if batches.len() == 0 {
        Seq::empty()
    } else {
        batches_field(batches.drop_last()) + delimited(
            2,
            table_batch(batches.last().0, batches.last().1),
        )
    }
}

/// `PutBatchesRequest { sequence_number = 1, repeated batches = 2 }`.
pub open spec fn put_batches_request(
    sequence_number: u64,
    batches: Seq<(Seq<char>, Seq<u8>)>,
) -> Seq<u8> {
    uint64_field(1, sequence_number) + batches_field(batches)
}

/// `CheckpointRequest { sequence_number = 1 }`.
pub open spec fn checkpoint_request(sequence_number: u64) -> Seq<u8> {
    uint64_field(1, sequence_number)
}

/// `GetLastCheckpointResponse { sequence_number = 1, has_checkpoint = 2 }`.
pub open spec fn last_checkpoint_response(sequence_number: u64, has_checkpoint: bool) -> Seq<u8> {
    uint64_field(1, sequence_number) + bool_field(2, has_checkpoint)
}

/// One batch of table data for the indexer.
pub struct TableBatch {
    /// Fully qualified table name.
    pub table_name: String,
    /// The batch's data.
    pub record_batch: Vec<u8>,
}

/// The name and data of each batch.
pub open spec fn batches_view(batches: Seq<TableBatch>) -> Seq<(Seq<char>, Seq<u8>)> {
    batches.map_values(|b: TableBatch| (b.table_name@, b.record_batch@))
}

/// Encodes a `CreateTableRequest`.
pub fn encode_create_table_request(
    sequence_number: u64,
    table_name: &String,
    arrow_schema: &Vec<u8>,
    key: &String,
) -> (r: Vec<u8>)
    ensures
        r@ == create_table_request(sequence_number, table_name@, arrow_schema@, key@),
{
    let mut out: Vec<u8> = Vec::new();
    encode_uint64_field(1, sequence_number, &mut out);
    encode_bytes_field(2, table_name.as_str().as_bytes(), &mut out);
    encode_bytes_field(3, arrow_schema.as_slice(), &mut out);
    encode_bytes_field(4, key.as_str().as_bytes(), &mut out);
    assert(out@ =~= create_table_request(sequence_number, table_name@, arrow_schema@, key@));
    out
}

/// Encodes a `DropTableRequest`.
pub fn encode_drop_table_request(sequence_number: u64, table_name: &String) -> (r: Vec<u8>)
    ensures
        r@ == drop_table_request(sequence_number, table_name@),
{
    let mut out: Vec<u8> = Vec::new();
    encode_uint64_field(1, sequence_number, &mut out);
    encode_bytes_field(2, table_name.as_str().as_bytes(), &mut out);
    assert(out@ =~= drop_table_request(sequence_number, table_name@));
    out
}

/// Encodes a `PutBatchesRequest`.
pub fn encode_put_batches_request(sequence_number: u64, batches: &Vec<TableBatch>) -> (r: Vec<u8>)
    ensures
        r@ == put_batches_request(sequence_number, batches_view(batches@)),
{
    let mut out: Vec<u8> = Vec::new();
    encode_uint64_field(1, sequence_number, &mut out);
    let ghost head = out@;
    let mut i: usize = 0;
    while i < batches.len()
        invariant
            i <= batches@.len(),
            out@ == head + batches_field(batches_view(batches@).take(i as int)),
        decreases batches.len() - i,
    {
        let b = &batches[i];
        let mut inner: Vec<u8> = Vec::new();
        encode_bytes_field(1, b.table_name.as_str().as_bytes(), &mut inner);
        encode_bytes_field(2, b.record_batch.as_slice(), &mut inner);
        assert(inner@ =~= table_batch(b.table_name@, b.record_batch@));
        encode_delimited(2, inner.as_slice(), &mut out);
        proof {
            let bv = batches_view(batches@);
            assert(bv.take(i + 1).drop_last() =~= bv.take(i as int));
            assert(bv.take(i + 1).last() == (b.table_name@, b.record_batch@));
            assert(out@ =~= head + batches_field(bv.take(i + 1)));
        }
        i += 1;
    }
    assert(batches_view(batches@).take(batches@.len() as int) =~= batches_view(batches@));
    out
}

/// Encodes a `CheckpointRequest`.
pub fn encode_checkpoint_request(sequence_number: u64) -> (r: Vec<u8>)
    ensures
        r@ == checkpoint_request(sequence_number),
{
    let mut out: Vec<u8> = Vec::new();
    encode_uint64_field(1, sequence_number, &mut out);
    assert(out@ =~= checkpoint_request(sequence_number));
    out
}

/// Encodes a `GetLastCheckpointResponse`.
pub fn encode_last_checkpoint_response(sequence_number: u64, has_checkpoint: bool) -> (r: Vec<u8>)
    ensures
        r@ == last_checkpoint_response(sequence_number, has_checkpoint),
{
    let mut out: Vec<u8> = Vec::new();
    encode_uint64_field(1, sequence_number, &mut out);
    encode_bool_field(2, has_checkpoint, &mut out);
    assert(out@ =~= last_checkpoint_response(sequence_number, has_checkpoint));
    out
}

} // verus!

verus! {

/// A varint read from `b` takes at least one and at most `b.len()` bytes.
pub proof fn lemma_read_varint_len(b: Seq<u8>)
    ensures
        read_varint(b) matches Some((_, n)) ==> 1 <= n <= b.len() && n <= 10,
{
    if exists|n: nat| #[trigger] varint_ends_at(b, n) {
        let n = choose|n: nat| #[trigger] varint_ends_at(b, n);
        assert(varint_ends_at(b, n));
    }
}

/// How many bytes the value of an unknown field of wire type `wire` takes
/// at the front of `b`, or `None` if it does not fit or the wire type cannot
/// be skipped.
pub open spec fn skip_len(b: Seq<u8>, wire: u64) -> Option<nat> {
    if wire == 0 {
        match read_varint(b) {
            Some((_, n)) => Some(n),
            None => None,
        }
    } else if wire == 1 {
        if b.len() >= 8 {
            Some(8)
        } else {
            None
        }
    } else if wire == 2 {
        match read_varint(b) {
            Some((l, n)) => if n + l <= b.len() {
                Some((n + l) as nat)
            } else {
                None
            },
            None => None,
        }
    } else if wire == 5 {
        if b.len() >= 4 {
            Some(4)
        } else {
            None
        }
    } else {
        None
    }
}

/// Decodes the fields of a `GetLastCheckpointResponse`, starting from the
/// values decoded so far; the last occurrence of a field wins and unknown
/// fields are skipped.
pub open spec fn decode_response_fields(b: Seq<u8>, seq: u64, has: bool) -> Option<(u64, bool)>
    decreases b.len(),
{
    if b.len() == 0 {
        Some((seq, has))
    } else {
        match read_varint(b) {
            None => None,
            Some((key, n)) => {
                proof {
                    lemma_read_varint_len(b);
                }
                let wire = key % 8;
                let tag = key / 8;
                let rest = b.skip(n as int);
                if key > u32::MAX || wire > 5 || tag == 0 {
                    None
                } else if tag == 1 || tag == 2 {
                    if wire != 0 {
                        None
                    } else {
                        match read_varint(rest) {
                            None => None,
                            Some((v, m)) => {
                                proof {
                                    lemma_read_varint_len(rest);
                                }
                                decode_response_fields(
                                    rest.skip(m as int),
                                    if tag == 1 {
                                        v
                                    } else {
                                        seq
                                    },
                                    if tag == 2 {
                                        v != 0
                                    } else {
                                        has
                                    },
                                )
                            },
                        }
                    }
                } else {
                    match skip_len(rest, wire) {
                        None => None,
                        Some(m) => if m <= rest.len() {
                            decode_response_fields(rest.skip(m as int), seq, has)
                        } else {
                            None
                        },
                    }
                }
            },
        }
    }
}

/// Decodes a `GetLastCheckpointResponse`.
pub open spec fn decode_last_checkpoint_response(b: Seq<u8>) -> Option<(u64, bool)> {
    decode_response_fields(b, 0, false)
}

/// Decodes a `GetLastCheckpointResponse` into its sequence number and
/// whether a checkpoint exists; `None` if the bytes are not a valid message.
pub fn decode_last_checkpoint(b: &Vec<u8>) -> (r: Option<(u64, bool)>)
    ensures
        r == decode_last_checkpoint_response(b@),
{
    let mut pos: usize = 0;
    let mut seq: u64 = 0;
    let mut has: bool = false;
    assert(b@.skip(0) =~= b@);
    while pos < b.len()
        invariant
            pos <= b@.len(),
            decode_response_fields(b@.skip(pos as int), seq, has) == decode_last_checkpoint_response(
                b@,
            ),
        decreases b@.len() - pos,
    {
        let ghost cur = b@.skip(pos as int);
        let (key, n) = match decode_varint(b, pos) {
            Some(x) => x,
            None => {
                return None;
            },
        };
        proof {
            lemma_read_varint_len(cur);
            assert(b@.skip(pos + n) =~= cur.skip(n as int));
        }
        let wire = key % 8;
        let tag = key / 8;
        if key > 0xffff_ffff || wire > 5 || tag == 0 {
            return None;
        }
        let after_key = pos + n;
        if tag == 1 || tag == 2 {
            if wire != 0 {
                return None;
            }
            let (v, m) = match decode_varint(b, after_key) {
                Some(x) => x,
                None => {
                    return None;
                },
            };
            proof {
                lemma_read_varint_len(cur.skip(n as int));
                assert(b@.skip(after_key + m) =~= cur.skip(n as int).skip(m as int));
            }
            if tag == 1 {
                seq = v;
            } else {
                has = v != 0;
            }
            pos = after_key + m;
        } else {
            let rem = b.len() - after_key;
            let m: usize = if wire == 0 {
                match decode_varint(b, after_key) {
                    Some((_, m)) => m,
                    None => {
                        return None;
                    },
                }
            } else if wire == 1 {
                if rem < 8 {
                    return None;
                }
                8
            } else if wire == 2 {
                match decode_varint(b, after_key) {
                    Some((l, m)) => {
                        proof {
                            lemma_read_varint_len(cur.skip(n as int));
                        }
                        if l > (rem - m) as u64 {
                            return None;
                        }
                        m + l as usize
                    },
                    None => {
                        return None;
                    },
                }
            } else if wire == 5 {
                if rem < 4 {
                    return None;
                }
                4
            } else {
                return None;
            };
            proof {
                lemma_read_varint_len(cur.skip(n as int));
                assert(skip_len(cur.skip(n as int), wire) == Some(m as nat));
                assert(b@.skip(after_key + m) =~= cur.skip(n as int).skip(m as int));
            }
            pos = after_key + m;
        }
    }
    proof {
        assert(b@.skip(pos as int).len() == 0);
    }
    Some((seq, has))
}

proof fn lemma_single_byte_varint(k: u8, rest: Seq<u8>)
    requires
        k < 128,
    ensures
        read_varint(seq![k] + rest) == Some((k as u64, 1nat)),
{
    lemma_varint_roundtrip(k as u64, rest);
    assert(varint(k as u64) == seq![k]);
}

/// Decoding an encoded `GetLastCheckpointResponse` gives back its fields.
pub proof fn lemma_last_checkpoint_roundtrip(sequence_number: u64, has_checkpoint: bool)
    ensures
        decode_last_checkpoint_response(last_checkpoint_response(sequence_number, has_checkpoint))
            == Some((sequence_number, has_checkpoint)),
{
    let tail = bool_field(2, has_checkpoint);
    let b = last_checkpoint_response(sequence_number, has_checkpoint);
    assert(key_byte(1, 0) == 8u8);
    assert(key_byte(2, 0) == 16u8);
    if has_checkpoint {
        lemma_single_byte_varint(16u8, seq![1u8]);
        assert(tail == seq![16u8] + seq![1u8]);
        assert(tail.skip(1) =~= seq![1u8]);
        lemma_single_byte_varint(1u8, Seq::empty());
        assert(seq![1u8] =~= seq![1u8] + Seq::<u8>::empty());
        assert(seq![1u8].skip(1) =~= Seq::<u8>::empty());
        assert(decode_response_fields(Seq::<u8>::empty(), sequence_number, true) == Some(
            (sequence_number, true),
        ));
        assert(decode_response_fields(tail, sequence_number, false) == Some(
            (sequence_number, true),
        ));
    } else {
        assert(tail.len() == 0);
    }
    if sequence_number != 0 {
        let v = varint(sequence_number);
        assert(b =~= seq![8u8] + (v + tail));
        lemma_single_byte_varint(8u8, v + tail);
        assert(b.skip(1) =~= v + tail);
        lemma_varint_roundtrip(sequence_number, tail);
        assert((v + tail).skip(v.len() as int) =~= tail);
    } else {
        assert(b =~= tail);
    }
}

} // verus!
