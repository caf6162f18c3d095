//! Byte-level encoding primitives of the save format.
//!
//! Every persisted value is little-endian and is described twice: a spec
//! function gives the exact byte sequence (`le_bytes`, and per-type `enc_*`
//! functions in the other modules), and the executable readers and writers are
//! proved against it. Reading happens through a `Buffer`, a byte vector with a
//! cursor; a decode error never panics, it is reported as a
//! `SerializationError`.

use vstd::prelude::*;

verus! {

/// 256 to the power of `n`: the number of values `n` bytes can hold.
pub open spec fn pow256(n: nat) -> nat
    decreases n,
{
    if n == 0 {
        1
    } else {
        256 * pow256((n - 1) as nat)
    }
}

/// The `n`-byte little-endian encoding of `v` (modulo `pow256(n)`).
pub open spec fn le_bytes(v: nat, n: nat) -> Seq<u8>
    decreases n,
{
    if n == 0 {
        Seq::empty()
    } else {
        seq![(v % 256) as u8] + le_bytes(v / 256, (n - 1) as nat)
    }
}

/// The value a little-endian byte sequence stands for.
pub open spec fn le_val(s: Seq<u8>) -> nat
    decreases s.len(),
{
    if s.len() == 0 {
        0
    } else {
        (s[0] + 256 * le_val(s.skip(1))) as nat
    }
}

pub proof fn lemma_pow256_pos(n: nat)
    ensures
        pow256(n) >= 1,
    decreases n,
{
    if n > 0 {
        lemma_pow256_pos((n - 1) as nat);
    }
}

pub proof fn lemma_pow256_mono(a: nat, b: nat)
    requires
        a <= b,
    ensures
        pow256(a) <= pow256(b),
    decreases b,
{
    if a < b {
        lemma_pow256_mono(a, (b - 1) as nat);
    }
}

pub proof fn lemma_le_bytes_len(v: nat, n: nat)
    ensures
        le_bytes(v, n).len() == n,
    decreases n,
{
    if n > 0 {
        lemma_le_bytes_len(v / 256, (n - 1) as nat);
    }
}

pub proof fn lemma_le_val_bound(s: Seq<u8>)
    ensures
        le_val(s) < pow256(s.len()),
    decreases s.len(),
{
    if s.len() > 0 {
        lemma_le_val_bound(s.skip(1));
    }
}

/// Round trip: decoding the encoding of a value gives the value back.
pub proof fn lemma_le_val_le_bytes(v: nat, n: nat)
    requires
        v < pow256(n),
    ensures
        le_val(le_bytes(v, n)) == v,
    decreases n,
{
    if n > 0 {
        let s = le_bytes(v, n);
        lemma_le_bytes_len(v / 256, (n - 1) as nat);
        assert(s.skip(1) =~= le_bytes(v / 256, (n - 1) as nat));
        assert(v / 256 < pow256((n - 1) as nat));
        lemma_le_val_le_bytes(v / 256, (n - 1) as nat);
    }
}

pub proof fn lemma_le_bytes_index(v: nat, n: nat, i: nat)
    requires
        i < n,
    ensures
        le_bytes(v, n).len() == n,
        le_bytes(v, n)[i as int] == (v / pow256(i)) % 256,
    decreases n,
{
    lemma_le_bytes_len(v, n);
    if i == 0 {
        assert(pow256(0) == 1);
        assert(v as int / 1int == v) by {
            vstd::arithmetic::div_mod::lemma_div_basics(v as int);
        }
    } else {
        lemma_le_bytes_index(v / 256, (n - 1) as nat, (i - 1) as nat);
        assert(le_bytes(v, n)[i as int] == le_bytes(v / 256, (n - 1) as nat)[i - 1]);
        lemma_pow256_pos((i - 1) as nat);
        vstd::arithmetic::div_mod::lemma_div_denominator(v as int, 256, pow256((i - 1) as nat) as int);
        assert(256 * pow256((i - 1) as nat) == pow256(i));
    }
}

/// The decode errors: a closed set, every one recoverable at the load site.
#[derive(Clone, Copy, Debug, PartialEq, Eq, Structural)]
pub enum SerializationError {
    /// Fewer bytes remain than the value needs.
    NotEnoughSpace,
    /// The bytes are structurally impossible (bad name, unknown identifier,
    /// impossible tag or length).
    InvalidData,
    /// A container's one-byte trap tag did not match the expected kind.
    SerializeTrap { found: SerializationTrap, expected: SerializationTrap },
}

/// The one-byte discriminant written before every serialized composite value,
/// validated on decode so structural drift in a file becomes an explicit
/// error instead of silent misinterpretation.
#[derive(Clone, Copy, Debug, PartialEq, Eq, Structural)]
pub enum SerializationTrap {
    String,
    HashMap,
    Vec,
    Option,
    Item,
    Block,
    Chunk,
    World,
    Time,
    Unknown,
}

/// The trap kind each byte decodes to: bytes zero through eight map to the
/// variants in declaration order, every other byte to `Unknown`.
pub open spec fn spec_trap_from_u8(v: u8) -> SerializationTrap {
    if v == 0 {
        SerializationTrap::String
    } else if v == 1 {
        SerializationTrap::HashMap
    } else if v == 2 {
        SerializationTrap::Vec
    } else if v == 3 {
        SerializationTrap::Option
    } else if v == 4 {
        SerializationTrap::Item
    } else if v == 5 {
        SerializationTrap::Block
    } else if v == 6 {
        SerializationTrap::Chunk
    } else if v == 7 {
        SerializationTrap::World
    } else if v == 8 {
        SerializationTrap::Time
    } else {
        SerializationTrap::Unknown
    }
}

/// Decoding the byte a tag was written as gives the same tag back.
pub proof fn lemma_trap_byte_round_trip(t: SerializationTrap)
    ensures
        spec_trap_from_u8(spec_trap_u8(t)) == t,
{
}

/// The byte each trap kind is written as.
pub open spec fn spec_trap_u8(t: SerializationTrap) -> u8 {
    match t {
        SerializationTrap::String => 0,
        SerializationTrap::HashMap => 1,
        SerializationTrap::Vec => 2,
        SerializationTrap::Option => 3,
        SerializationTrap::Item => 4,
        SerializationTrap::Block => 5,
        SerializationTrap::Chunk => 6,
        SerializationTrap::World => 7,
        SerializationTrap::Time => 8,
        SerializationTrap::Unknown => 0xff,
    }
}

/// A trap tag as one byte of encoding.
pub open spec fn enc_trap(t: SerializationTrap) -> Seq<u8> {
    seq![spec_trap_u8(t)]
}

impl SerializationTrap {
    pub fn to_u8(self) -> (r: u8)
        ensures
            r == spec_trap_u8(self),
    {
        match self {
            SerializationTrap::String => 0,
            SerializationTrap::HashMap => 1,
            SerializationTrap::Vec => 2,
            SerializationTrap::Option => 3,
            SerializationTrap::Item => 4,
            SerializationTrap::Block => 5,
            SerializationTrap::Chunk => 6,
            SerializationTrap::World => 7,
            SerializationTrap::Time => 8,
            SerializationTrap::Unknown => 0xff,
        }
    }

    /// The trap kind a byte stands for; any unassigned byte reads as `Unknown`.
    pub fn from_u8(value: u8) -> (r: Self)
        ensures
            r == spec_trap_from_u8(value),
    {
        match value {
            0 => SerializationTrap::String,
            1 => SerializationTrap::HashMap,
            2 => SerializationTrap::Vec,
            3 => SerializationTrap::Option,
            4 => SerializationTrap::Item,
            5 => SerializationTrap::Block,
            6 => SerializationTrap::Chunk,
            7 => SerializationTrap::World,
            8 => SerializationTrap::Time,
            _ => SerializationTrap::Unknown,
        }
    }

    pub fn serialize(self, buf: &mut Vec<u8>)
        ensures
            final(buf)@ == old(buf)@ + enc_trap(self),
    {
        buf.push(self.to_u8());
        assert(buf@ =~= old(buf)@ + enc_trap(self));
    }

    pub fn required_length() -> (r: usize)
        ensures
            r == enc_trap(SerializationTrap::Unknown).len(),
    {
        1
    }

    /// Consume the expected trap tag, or report what was found instead.
    pub fn try_deserialize(self, buf: &mut Buffer) -> (r: Result<(), SerializationError>)
        requires
            old(buf).wf(),
        ensures
            final(buf).wf(),
            match r {
                Ok(()) => old(buf).remaining().len() >= 1
                    && old(buf).remaining()[0] == spec_trap_u8(self)
                    && final(buf).remaining() == old(buf).remaining().skip(1),
                Err(e) => final(buf).remaining() == old(buf).remaining()
                    && if old(buf).remaining().len() == 0 {
                    e == SerializationError::NotEnoughSpace
                } else {
                    old(buf).remaining()[0] != spec_trap_u8(self)
                        && e == (SerializationError::SerializeTrap {
                        found: spec_trap_from_u8(old(buf).remaining()[0]),
                        expected: self,
                    })
                },
            },
    {
        if buf.len() < 1 {
            return Err(SerializationError::NotEnoughSpace);
        }
        let read = buf.peek_element();
        if read != self.to_u8() {
            Err(SerializationError::SerializeTrap {
                found: SerializationTrap::from_u8(read),
                expected: self,
            })
        } else {
            let _ = buf.read_element();
            Ok(())
        }
    }

    /// Like `try_deserialize`, for callers that already know the tag matches.
    pub fn deserialize(self, buf: &mut Buffer)
        requires
            old(buf).wf(),
            old(buf).remaining().len() >= 1,
            old(buf).remaining()[0] == spec_trap_u8(self),
        ensures
            final(buf).wf(),
            final(buf).remaining() == old(buf).remaining().skip(1),
    {
        let _ = buf.read_element();
    }
}

/// A byte vector with a read cursor; decoding consumes from the front of
/// `remaining()`.
pub struct Buffer {
    data: Vec<u8>,
    pos: usize,
}

impl Buffer {
    pub closed spec fn wf(self) -> bool {
        self.pos <= self.data@.len()
    }

    /// The bytes not yet consumed.
    pub closed spec fn remaining(self) -> Seq<u8> {
        self.data@.skip(self.pos as int)
    }

    pub fn new(vec: Vec<u8>) -> (r: Self)
        ensures
            r.wf(),
            r.remaining() == vec@,
    {
        let r = Buffer { data: vec, pos: 0 };
        proof {
            assert(r.remaining() =~= r.data@);
        }
        r
    }

    /// How many bytes are left to read.
    pub fn len(&self) -> (r: usize)
        requires
            self.wf(),
        ensures
            r == self.remaining().len(),
    {
        self.data.len() - self.pos
    }

    /// Look at the next byte without consuming it.
    pub fn peek_element(&self) -> (r: u8)
        requires
            self.wf(),
            self.remaining().len() >= 1,
        ensures
            r == self.remaining()[0],
    {
        self.data[self.pos]
    }

    pub fn read_element(&mut self) -> (r: u8)
        requires
            old(self).wf(),
            old(self).remaining().len() >= 1,
        ensures
            final(self).wf(),
            r == old(self).remaining()[0],
            final(self).remaining() == old(self).remaining().skip(1),
    {
        let n = self.data.len();
        assert(self.pos < n);
        let b = self.data[self.pos];
        self.pos = self.pos + 1;
        proof {
            assert(self.remaining() =~= old(self).remaining().skip(1));
        }
        b
    }

    pub fn try_read_element(&mut self) -> (r: Result<u8, SerializationError>)
        requires
            old(self).wf(),
        ensures
            final(self).wf(),
            match r {
                Ok(b) => old(self).remaining().len() >= 1
                    && b == old(self).remaining()[0]
                    && final(self).remaining() == old(self).remaining().skip(1),
                Err(e) => old(self).remaining().len() == 0
                    && e == SerializationError::NotEnoughSpace
                    && final(self).remaining() == old(self).remaining(),
            },
    {
        if self.len() < 1 {
            Err(SerializationError::NotEnoughSpace)
        } else {
            Ok(self.read_element())
        }
    }

    /// Copy out the next `num` bytes.
    pub fn read_elements(&mut self, num: usize) -> (r: Vec<u8>)
        requires
            old(self).wf(),
            old(self).remaining().len() >= num,
        ensures
            final(self).wf(),
            r@ == old(self).remaining().take(num as int),
            final(self).remaining() == old(self).remaining().skip(num as int),
    {
        let mut out: Vec<u8> = Vec::new();
        let mut i: usize = 0;
        while i < num
            invariant
                i <= num,
                old(self).wf(),
                self.wf(),
                old(self).remaining().len() >= num,
                out@ == old(self).remaining().take(i as int),
                self.remaining() == old(self).remaining().skip(i as int),
            decreases num - i,
        {
            let b = self.read_element();
            out.push(b);
            i = i + 1;
            proof {
                assert(out@ =~= old(self).remaining().take(i as int));
                assert(self.remaining() =~= old(self).remaining().skip(i as int));
            }
        }
        out
    }

    pub fn try_read_elements(&mut self, num: usize) -> (r: Result<Vec<u8>, SerializationError>)
        requires
            old(self).wf(),
        ensures
            final(self).wf(),
            match r {
                Ok(v) => old(self).remaining().len() >= num
                    && v@ == old(self).remaining().take(num as int)
                    && final(self).remaining() == old(self).remaining().skip(num as int),
                Err(e) => old(self).remaining().len() < num
                    && e == SerializationError::NotEnoughSpace
                    && final(self).remaining() == old(self).remaining(),
            },
    {
        if self.len() < num {
            Err(SerializationError::NotEnoughSpace)
        } else {
            Ok(self.read_elements(num))
        }
    }
}

/// Append the `n`-byte little-endian encoding of `v`.
pub fn write_le_bytes(buf: &mut Vec<u8>, v: u64, n: usize)
    requires
        n <= 8,
    ensures
        final(buf)@ == old(buf)@ + le_bytes(v as nat, n as nat),
{
    let ghost orig = buf@;
    let mut x: u64 = v;
    let mut i: usize = 0;
    proof {
        lemma_le_bytes_len(v as nat, n as nat);
        assert(pow256(0) == 1);
        assert(v as int / 1int == v as int) by {
            vstd::arithmetic::div_mod::lemma_div_basics(v as int);
        }
    }
    while i < n
        invariant
            i <= n,
            n <= 8,
            le_bytes(v as nat, n as nat).len() == n,
            buf@ == orig + le_bytes(v as nat, n as nat).take(i as int),
            x as nat == (v as nat) / pow256(i as nat),
        decreases n - i,
    {
        proof {
            lemma_le_bytes_index(v as nat, n as nat, i as nat);
        }
        buf.push((x % 256) as u8);
        proof {
            assert(buf@ =~= orig + le_bytes(v as nat, n as nat).take(i + 1));
            lemma_pow256_pos(i as nat);
            vstd::arithmetic::div_mod::lemma_div_denominator(v as int, pow256(i as nat) as int, 256);
            assert(pow256(i as nat) * 256 == 256 * pow256(i as nat));
            assert(256 * pow256(i as nat) == pow256((i + 1) as nat));
        }
        x = x / 256;
        i = i + 1;
    }
    proof {
        assert(le_bytes(v as nat, n as nat).take(n as int) =~= le_bytes(v as nat, n as nat));
    }
}

/// Read `n` bytes as a little-endian value.
pub fn read_le_bytes(buf: &mut Buffer, n: usize) -> (r: u64)
    requires
        old(buf).wf(),
        n <= 8,
        old(buf).remaining().len() >= n,
    ensures
        final(buf).wf(),
        r as nat == le_val(old(buf).remaining().take(n as int)),
        final(buf).remaining() == old(buf).remaining().skip(n as int),
{
    let bytes = buf.read_elements(n);
    let ghost s = bytes@;
    let mut r: u64 = 0;
    let mut i: usize = n;
    proof {
        assert(s.skip(n as int) =~= Seq::<u8>::empty());
    }
    while i > 0
        invariant
            i <= n,
            n <= 8,
            bytes@ == s,
            s.len() == n,
            r as nat == le_val(s.skip(i as int)),
        decreases i,
    {
        i = i - 1;
        proof {
            lemma_le_val_bound(s.skip(i + 1));
            lemma_pow256_mono((n - i - 1) as nat, 7);
            assert(pow256(7) == 72057594037927936) by {
                reveal_with_fuel(pow256, 8);
            }
            assert(s.skip(i as int)[0] == s[i as int]);
            assert(s.skip(i as int).skip(1) =~= s.skip(i + 1));
        }
        r = r * 256 + (bytes[i] as u64);
    }
    proof {
        assert(s.skip(0) =~= s);
    }
    r
}


/// Parse an `n`-byte little-endian value from the front of `s`.
pub open spec fn parse_le(s: Seq<u8>, n: nat) -> Option<(nat, Seq<u8>)> {
    if s.len() >= n {
        Some((le_val(s.take(n as int)), s.skip(n as int)))
    } else {
        None
    }
}

/// Parse and check one trap tag.
pub open spec fn parse_trap(s: Seq<u8>, t: SerializationTrap) -> Option<Seq<u8>> {
    if s.len() >= 1 && s[0] == spec_trap_u8(t) {
        Some(s.skip(1))
    } else {
        None
    }
}

pub open spec fn enc_u8(v: u8) -> Seq<u8> {
    seq![v]
}

pub open spec fn enc_u32(v: u32) -> Seq<u8> {
    le_bytes(v as nat, 4)
}

pub open spec fn enc_u64(v: u64) -> Seq<u8> {
    le_bytes(v as nat, 8)
}

/// A `bool` is one byte, zero for `false`; any non-zero byte reads back `true`.
pub open spec fn enc_bool(b: bool) -> Seq<u8> {
    seq![if b { 1u8 } else { 0u8 }]
}

/// Collection lengths are written as 8-byte values.
pub open spec fn enc_len(n: nat) -> Seq<u8> {
    le_bytes(n, 8)
}

/// The unsigned 32-bit two's-complement image of a signed value.
pub open spec fn u32_of_i32(v: i32) -> nat {
    if v >= 0 {
        v as nat
    } else {
        (v + 0x1_0000_0000) as nat
    }
}

/// The signed reading of an unsigned 32-bit value.
pub open spec fn i32_of_u32(u: nat) -> int {
    if u < 0x8000_0000 {
        u as int
    } else {
        u - 0x1_0000_0000
    }
}

pub open spec fn enc_i32(v: i32) -> Seq<u8> {
    le_bytes(u32_of_i32(v), 4)
}

pub proof fn lemma_i32_u32_round_trip(v: i32)
    ensures
        u32_of_i32(v) < 0x1_0000_0000,
        i32_of_u32(u32_of_i32(v)) == v,
{
}

pub open spec fn parse_u8(s: Seq<u8>) -> Option<(u8, Seq<u8>)> {
    if s.len() >= 1 {
        Some((s[0], s.skip(1)))
    } else {
        None
    }
}

pub open spec fn parse_u32(s: Seq<u8>) -> Option<(u32, Seq<u8>)> {
    match parse_le(s, 4) {
        Some((v, rest)) => Some((v as u32, rest)),
        None => None,
    }
}

pub open spec fn parse_u64(s: Seq<u8>) -> Option<(u64, Seq<u8>)> {
    match parse_le(s, 8) {
        Some((v, rest)) => Some((v as u64, rest)),
        None => None,
    }
}

pub open spec fn parse_i32(s: Seq<u8>) -> Option<(i32, Seq<u8>)> {
    match parse_le(s, 4) {
        Some((v, rest)) => Some((i32_of_u32(v) as i32, rest)),
        None => None,
    }
}

pub open spec fn parse_bool(s: Seq<u8>) -> Option<(bool, Seq<u8>)> {
    if s.len() >= 1 {
        Some((s[0] != 0, s.skip(1)))
    } else {
        None
    }
}

pub open spec fn parse_len(s: Seq<u8>) -> Option<(nat, Seq<u8>)> {
    parse_le(s, 8)
}

/// Round trip at the byte level: parsing an encoding followed by anything
/// yields the encoded value and leaves exactly the rest.
pub proof fn lemma_parse_le_enc(v: nat, n: nat, rest: Seq<u8>)
    requires
        v < pow256(n),
    ensures
        parse_le(le_bytes(v, n) + rest, n) == Some((v, rest)),
{
    lemma_le_bytes_len(v, n);
    let s = le_bytes(v, n) + rest;
    assert(s.take(n as int) =~= le_bytes(v, n));
    assert(s.skip(n as int) =~= rest);
    lemma_le_val_le_bytes(v, n);
}

pub proof fn lemma_parse_u32_enc(v: u32, rest: Seq<u8>)
    ensures
        parse_u32(enc_u32(v) + rest) == Some((v, rest)),
{
    assert(pow256(4) == 0x1_0000_0000) by {
        reveal_with_fuel(pow256, 5);
    }
    lemma_parse_le_enc(v as nat, 4, rest);
}

pub proof fn lemma_parse_u64_enc(v: u64, rest: Seq<u8>)
    ensures
        parse_u64(enc_u64(v) + rest) == Some((v, rest)),
{
    assert(pow256(8) == 0x1_0000_0000_0000_0000) by {
        reveal_with_fuel(pow256, 9);
    }
    lemma_parse_le_enc(v as nat, 8, rest);
}

pub proof fn lemma_parse_i32_enc(v: i32, rest: Seq<u8>)
    ensures
        parse_i32(enc_i32(v) + rest) == Some((v, rest)),
{
    assert(pow256(4) == 0x1_0000_0000) by {
        reveal_with_fuel(pow256, 5);
    }
    lemma_i32_u32_round_trip(v);
    lemma_parse_le_enc(u32_of_i32(v), 4, rest);
}

pub proof fn lemma_parse_len_enc(n: nat, rest: Seq<u8>)
    requires
        n < 0x1_0000_0000_0000_0000,
    ensures
        parse_len(enc_len(n) + rest) == Some((n, rest)),
{
    assert(pow256(8) == 0x1_0000_0000_0000_0000) by {
        reveal_with_fuel(pow256, 9);
    }
    lemma_parse_le_enc(n, 8, rest);
}

pub proof fn lemma_parse_bool_enc(b: bool, rest: Seq<u8>)
    ensures
        parse_bool(enc_bool(b) + rest) == Some((b, rest)),
{
    let s = enc_bool(b) + rest;
    assert(s.skip(1) =~= rest);
}

pub fn write_u8(buf: &mut Vec<u8>, v: u8)
    ensures
        final(buf)@ == old(buf)@ + enc_u8(v),
{
    buf.push(v);
    assert(buf@ =~= old(buf)@ + enc_u8(v));
}

pub fn write_u32(buf: &mut Vec<u8>, v: u32)
    ensures
        final(buf)@ == old(buf)@ + enc_u32(v),
{
    write_le_bytes(buf, v as u64, 4);
}

pub fn write_u64(buf: &mut Vec<u8>, v: u64)
    ensures
        final(buf)@ == old(buf)@ + enc_u64(v),
{
    write_le_bytes(buf, v, 8);
}

pub fn write_i32(buf: &mut Vec<u8>, v: i32)
    ensures
        final(buf)@ == old(buf)@ + enc_i32(v),
{
    let u: u64 = if v >= 0 {
        v as u64
    } else {
        ((v as i64) + 0x1_0000_0000) as u64
    };
    write_le_bytes(buf, u, 4);
}

pub fn write_bool(buf: &mut Vec<u8>, b: bool)
    ensures
        final(buf)@ == old(buf)@ + enc_bool(b),
{
    if b {
        buf.push(1);
    } else {
        buf.push(0);
    }
    assert(buf@ =~= old(buf)@ + enc_bool(b));
}

pub fn write_len(buf: &mut Vec<u8>, n: usize)
    ensures
        final(buf)@ == old(buf)@ + enc_len(n as nat),
{
    write_le_bytes(buf, n as u64, 8);
}

pub fn try_read_u8(buf: &mut Buffer) -> (r: Result<u8, SerializationError>)
    requires
        old(buf).wf(),
    ensures
        final(buf).wf(),
        match parse_u8(old(buf).remaining()) {
            Some((v, rest)) => r == Ok::<u8, SerializationError>(v) && final(buf).remaining() == rest,
            None => r == Err::<u8, SerializationError>(SerializationError::NotEnoughSpace)
                && final(buf).remaining() == old(buf).remaining(),
        },
{
    buf.try_read_element()
}

pub fn try_read_u32(buf: &mut Buffer) -> (r: Result<u32, SerializationError>)
    requires
        old(buf).wf(),
    ensures
        final(buf).wf(),
        match parse_u32(old(buf).remaining()) {
            Some((v, rest)) => r == Ok::<u32, SerializationError>(v) && final(buf).remaining() == rest,
            None => r == Err::<u32, SerializationError>(SerializationError::NotEnoughSpace)
                && final(buf).remaining() == old(buf).remaining(),
        },
{
    if buf.len() < 4 {
        return Err(SerializationError::NotEnoughSpace);
    }
    proof {
        lemma_le_val_bound(old(buf).remaining().take(4));
        assert(pow256(4) == 0x1_0000_0000) by {
            reveal_with_fuel(pow256, 5);
        }
    }
    let v = read_le_bytes(buf, 4);
    Ok(v as u32)
}

pub fn try_read_u64(buf: &mut Buffer) -> (r: Result<u64, SerializationError>)
    requires
        old(buf).wf(),
    ensures
        final(buf).wf(),
        match parse_u64(old(buf).remaining()) {
            Some((v, rest)) => r == Ok::<u64, SerializationError>(v) && final(buf).remaining() == rest,
            None => r == Err::<u64, SerializationError>(SerializationError::NotEnoughSpace)
                && final(buf).remaining() == old(buf).remaining(),
        },
{
    if buf.len() < 8 {
        return Err(SerializationError::NotEnoughSpace);
    }
    let v = read_le_bytes(buf, 8);
    Ok(v)
}

pub fn try_read_i32(buf: &mut Buffer) -> (r: Result<i32, SerializationError>)
    requires
        old(buf).wf(),
    ensures
        final(buf).wf(),
        match parse_i32(old(buf).remaining()) {
            Some((v, rest)) => r == Ok::<i32, SerializationError>(v) && final(buf).remaining() == rest,
            None => r == Err::<i32, SerializationError>(SerializationError::NotEnoughSpace)
                && final(buf).remaining() == old(buf).remaining(),
        },
{
    if buf.len() < 4 {
        return Err(SerializationError::NotEnoughSpace);
    }
    proof {
        lemma_le_val_bound(old(buf).remaining().take(4));
        assert(pow256(4) == 0x1_0000_0000) by {
            reveal_with_fuel(pow256, 5);
        }
    }
    let v = read_le_bytes(buf, 4);
    if v <= 0x7fff_ffff {
        Ok(v as i32)
    } else {
        Ok(((v as i64) - 0x1_0000_0000) as i32)
    }
}

pub fn try_read_bool(buf: &mut Buffer) -> (r: Result<bool, SerializationError>)
    requires
        old(buf).wf(),
    ensures
        final(buf).wf(),
        match parse_bool(old(buf).remaining()) {
            Some((v, rest)) => r == Ok::<bool, SerializationError>(v) && final(buf).remaining() == rest,
            None => r == Err::<bool, SerializationError>(SerializationError::NotEnoughSpace)
                && final(buf).remaining() == old(buf).remaining(),
        },
{
    match buf.try_read_element() {
        Ok(b) => Ok(b != 0),
        Err(e) => Err(e),
    }
}

pub fn try_read_len(buf: &mut Buffer) -> (r: Result<u64, SerializationError>)
    requires
        old(buf).wf(),
    ensures
        final(buf).wf(),
        match parse_len(old(buf).remaining()) {
            Some((v, rest)) => r == Ok::<u64, SerializationError>(v as u64)
                && v < 0x1_0000_0000_0000_0000
                && final(buf).remaining() == rest,
            None => r == Err::<u64, SerializationError>(SerializationError::NotEnoughSpace)
                && final(buf).remaining() == old(buf).remaining(),
        },
{
    proof {
        if old(buf).remaining().len() >= 8 {
            lemma_le_val_bound(old(buf).remaining().take(8));
            assert(pow256(8) == 0x1_0000_0000_0000_0000) by {
                reveal_with_fuel(pow256, 9);
            }
        }
    }
    try_read_u64(buf)
}


} // verus!
