//! Interned names and namespaced identifiers.
//!
//! A `StringPool` deduplicates byte-string names and hands out `GlobalString`
//! handles; equal handles mean equal names, so identifier comparison is cheap.
//! An `Identifier` is a (namespace, key) pair of handles: the stable type-key
//! for block and item lookup and for persistence. The pool is an explicit
//! value passed to whoever needs lookup, never ambient global state.

use vstd::prelude::*;
use vstd::string::StringSliceAdditionalSpecFns;
use vstd::string::StrSliceExecFns;
use crate::serialization::{
    enc_len, enc_trap, parse_len, parse_trap, try_read_len, write_len, Buffer, SerializationError,
    SerializationTrap,
};

verus! {

/// Every byte is ASCII. Persisted names are ASCII, so a decoded name is
/// rejected unless it is.
pub open spec fn ascii_ok(s: Seq<u8>) -> bool {
    forall|i: int| 0 <= i < s.len() ==> s[i] < 128
}

/// Whether some pool entry holds exactly these bytes.
pub open spec fn pool_contains(pool: Seq<Seq<u8>>, name: Seq<u8>) -> bool {
    exists|i: int| 0 <= i < pool.len() && pool[i] == name
}

/// The entry holding these bytes (meaningful only under `pool_contains` and
/// uniqueness).
pub open spec fn pool_index_of(pool: Seq<Seq<u8>>, name: Seq<u8>) -> int {
    choose|i: int| 0 <= i < pool.len() && pool[i] == name
}

/// No two pool entries hold the same bytes.
pub open spec fn pool_unique(pool: Seq<Seq<u8>>) -> bool {
    forall|i: int, j: int| 0 <= i < pool.len() && 0 <= j < pool.len() && i != j
        ==> pool[i] != pool[j]
}

/// A handle into the string pool. Copyable; equality by handle value.
#[derive(Clone, Copy, Debug, PartialEq, Eq, Hash, Structural)]
pub struct GlobalString(pub usize);

impl GlobalString {
    /// Whether the handle points into the pool.
    pub open spec fn valid(self, pool: Seq<Seq<u8>>) -> bool {
        self.0 < pool.len()
    }
}

/// The deduplicated pool of interned names.
pub struct StringPool {
    names: Vec<Vec<u8>>,
}

impl View for StringPool {
    type V = Seq<Seq<u8>>;

    closed spec fn view(&self) -> Seq<Seq<u8>> {
        Seq::new(self.names@.len(), |i: int| self.names@[i]@)
    }
}

/// Byte-for-byte equality of two vectors.
pub fn bytes_eq(a: &Vec<u8>, b: &Vec<u8>) -> (r: bool)
    ensures
        r <==> a@ == b@,
{
    if a.len() != b.len() {
        return false;
    }
    let n = a.len();
    let mut i: usize = 0;
    while i < n
        invariant
            i <= n,
            a@.len() == n,
            b@.len() == n,
            forall|j: int| 0 <= j < i ==> a@[j] == b@[j],
        decreases n - i,
    {
        if a[i] != b[i] {
            return false;
        }
        i = i + 1;
    }
    proof {
        assert(a@ =~= b@);
    }
    true
}

impl StringPool {
    pub open spec fn wf(self) -> bool {
        pool_unique(self@)
    }

    pub fn new() -> (r: Self)
        ensures
            r.wf(),
            r@ == Seq::<Seq<u8>>::empty(),
    {
        let r = StringPool { names: Vec::new() };
        proof {
            assert(r@ =~= Seq::<Seq<u8>>::empty());
        }
        r
    }

    pub fn len(&self) -> (r: usize)
        ensures
            r == self@.len(),
    {
        self.names.len()
    }

    /// The name a handle stands for.
    pub fn get(&self, g: GlobalString) -> (r: &Vec<u8>)
        requires
            g.valid(self@),
        ensures
            r@ == self@[g.0 as int],
    {
        &self.names[g.0]
    }

    /// The handle for a name already in the pool.
    pub fn find(&self, name: &Vec<u8>) -> (r: Option<GlobalString>)
        ensures
            match r {
                Some(g) => g.0 < self@.len() && self@[g.0 as int] == name@,
                None => !pool_contains(self@, name@),
            },
    {
        let n = self.names.len();
        let mut i: usize = 0;
        while i < n
            invariant
                i <= n,
                self@.len() == n,
                forall|j: int| 0 <= j < i ==> self@[j] != name@,
            decreases n - i,
        {
            if bytes_eq(&self.names[i], name) {
                return Some(GlobalString(i));
            }
            i = i + 1;
        }
        None
    }

    /// The handle for a name, added to the pool if it is new. Deduplicated:
    /// interning the same bytes twice yields the same handle.
    pub fn intern(&mut self, name: Vec<u8>) -> (r: GlobalString)
        requires
            old(self).wf(),
        ensures
            final(self).wf(),
            r.0 < final(self)@.len(),
            final(self)@[r.0 as int] == name@,
            pool_contains(old(self)@, name@) ==> final(self)@ == old(self)@,
            !pool_contains(old(self)@, name@) ==> final(self)@ == old(self)@.push(name@),
    {
        match self.find(&name) {
            Some(g) => g,
            None => {
                let n = self.names.len();
                self.names.push(name);
                proof {
                    assert(self@ =~= old(self)@.push(name@));
                }
                GlobalString(n)
            },
        }
    }
}

/// A namespaced identifier: two interned handles. Immutable, copyable,
/// equality by handle values.
#[derive(Clone, Copy, Debug, PartialEq, Eq, Hash, Structural)]
pub struct Identifier {
    pub major: GlobalString,
    pub minor: GlobalString,
}

impl Identifier {
    pub fn new(major: GlobalString, minor: GlobalString) -> (r: Self)
        ensures
            r == (Identifier { major, minor }),
    {
        Identifier { major, minor }
    }

    pub open spec fn valid(self, pool: Seq<Seq<u8>>) -> bool {
        self.major.valid(pool) && self.minor.valid(pool)
    }

    /// Both names are ASCII, as the save format demands.
    pub open spec fn names_ascii(self, pool: Seq<Seq<u8>>) -> bool {
        ascii_ok(pool[self.major.0 as int]) && ascii_ok(pool[self.minor.0 as int])
    }
}

/// The encoding of one name: a string trap, then its bytes as a tagged,
/// length-prefixed vector.
pub open spec fn enc_name(name: Seq<u8>) -> Seq<u8> {
    enc_trap(SerializationTrap::String) + enc_trap(SerializationTrap::Vec) + enc_len(name.len())
        + name
}

/// Parse one name; rejects a non-ASCII payload.
pub open spec fn parse_name(s: Seq<u8>) -> Option<(Seq<u8>, Seq<u8>)> {
    match parse_trap(s, SerializationTrap::String) {
        None => None,
        Some(s1) => match parse_trap(s1, SerializationTrap::Vec) {
            None => None,
            Some(s2) => match parse_len(s2) {
                None => None,
                Some((n, s3)) => if s3.len() >= n && ascii_ok(s3.take(n as int)) {
                    Some((s3.take(n as int), s3.skip(n as int)))
                } else {
                    None
                },
            },
        },
    }
}

pub proof fn lemma_parse_name_enc(name: Seq<u8>, rest: Seq<u8>)
    requires
        ascii_ok(name),
        name.len() < 0x1_0000_0000_0000_0000,
    ensures
        parse_name(enc_name(name) + rest) == Some((name, rest)),
{
    let s = enc_name(name) + rest;
    let s1 = enc_trap(SerializationTrap::Vec) + enc_len(name.len()) + name + rest;
    assert(s.skip(1) =~= s1);
    let s2 = enc_len(name.len()) + name + rest;
    assert(s1.skip(1) =~= s2);
    crate::serialization::lemma_parse_len_enc(name.len(), name + rest);
    assert(s2 =~= enc_len(name.len()) + (name + rest));
    let s3 = name + rest;
    assert(s3.take(name.len() as int) =~= name);
    assert(s3.skip(name.len() as int) =~= rest);
}

/// The encoding of an identifier: namespace name, then key name.
pub open spec fn enc_ident(pool: Seq<Seq<u8>>, id: Identifier) -> Seq<u8> {
    enc_name(pool[id.major.0 as int]) + enc_name(pool[id.minor.0 as int])
}

/// Parse an identifier against a pool: both names must already be interned.
pub open spec fn parse_ident(pool: Seq<Seq<u8>>, s: Seq<u8>) -> Option<(Identifier, Seq<u8>)> {
    match parse_name(s) {
        None => None,
        Some((nm1, s1)) => if pool_contains(pool, nm1) {
            match parse_name(s1) {
                None => None,
                Some((nm2, s2)) => if pool_contains(pool, nm2) {
                    Some((
                        Identifier {
                            major: GlobalString(pool_index_of(pool, nm1) as usize),
                            minor: GlobalString(pool_index_of(pool, nm2) as usize),
                        },
                        s2,
                    ))
                } else {
                    None
                },
            }
        } else {
            None
        },
    }
}

/// Round trip: an identifier whose names are interned, ASCII and unique
/// parses back to the same handles.
pub proof fn lemma_parse_ident_enc(pool: Seq<Seq<u8>>, id: Identifier, rest: Seq<u8>)
    requires
        pool_unique(pool),
        id.valid(pool),
        id.names_ascii(pool),
        pool[id.major.0 as int].len() < 0x1_0000_0000_0000_0000,
        pool[id.minor.0 as int].len() < 0x1_0000_0000_0000_0000,
    ensures
        parse_ident(pool, enc_ident(pool, id) + rest) == Some((id, rest)),
{
    let nm1 = pool[id.major.0 as int];
    let nm2 = pool[id.minor.0 as int];
    let s = enc_ident(pool, id) + rest;
    assert(s =~= enc_name(nm1) + (enc_name(nm2) + rest));
    lemma_parse_name_enc(nm1, enc_name(nm2) + rest);
    lemma_parse_name_enc(nm2, rest);
    assert(pool_contains(pool, nm1));
    assert(pool_contains(pool, nm2));
    let i1 = pool_index_of(pool, nm1);
    assert(0 <= i1 < pool.len() && pool[i1] == nm1);
    assert(i1 == id.major.0 as int);
    let i2 = pool_index_of(pool, nm2);
    assert(0 <= i2 < pool.len() && pool[i2] == nm2);
    assert(i2 == id.minor.0 as int);
}

/// Append the encoding of one name.
pub fn write_name(buf: &mut Vec<u8>, name: &Vec<u8>)
    ensures
        final(buf)@ == old(buf)@ + enc_name(name@),
{
    SerializationTrap::String.serialize(buf);
    SerializationTrap::Vec.serialize(buf);
    write_len(buf, name.len());
    let mut i: usize = 0;
    let n = name.len();
    let ghost mid = buf@;
    while i < n
        invariant
            i <= n,
            name@.len() == n,
            buf@ == mid + name@.take(i as int),
        decreases n - i,
    {
        buf.push(name[i]);
        i = i + 1;
        proof {
            assert(buf@ =~= mid + name@.take(i as int));
        }
    }
    proof {
        assert(buf@ =~= old(buf)@ + enc_name(name@));
    }
}

/// Read one name; `InvalidData` if its bytes are not ASCII.
pub fn try_read_name(buf: &mut Buffer) -> (r: Result<Vec<u8>, SerializationError>)
    requires
        old(buf).wf(),
    ensures
        final(buf).wf(),
        match parse_name(old(buf).remaining()) {
            Some((nm, rest)) => r matches Ok(v) && v@ == nm && final(buf).remaining() == rest,
            None => r is Err,
        },
{
    match SerializationTrap::String.try_deserialize(buf) {
        Err(e) => {
            return Err(e);
        },
        Ok(()) => {},
    }
    match SerializationTrap::Vec.try_deserialize(buf) {
        Err(e) => {
            return Err(e);
        },
        Ok(()) => {},
    }
    let n = match try_read_len(buf) {
        Err(e) => {
            return Err(e);
        },
        Ok(n) => n,
    };
    if n > buf.len() as u64 {
        return Err(SerializationError::NotEnoughSpace);
    }
    let bytes = buf.read_elements(n as usize);
    let ghost rem0 = old(buf).remaining();
    proof {
        assert(ascii_ok(bytes@) ==> parse_name(rem0) == Some((bytes@, buf.remaining())));
        assert(!ascii_ok(bytes@) ==> parse_name(rem0) is None);
    }
    let mut i: usize = 0;
    let m = bytes.len();
    while i < m
        invariant
            i <= m,
            bytes@.len() == m,
            buf.wf(),
            forall|j: int| 0 <= j < i ==> bytes@[j] < 128,
            ascii_ok(bytes@) ==> parse_name(rem0) == Some((bytes@, buf.remaining())),
            !ascii_ok(bytes@) ==> parse_name(rem0) is None,
            rem0 == old(buf).remaining(),
        decreases m - i,
    {
        if bytes[i] >= 128 {
            proof {
                assert(!ascii_ok(bytes@));
            }
            return Err(SerializationError::InvalidData);
        }
        i = i + 1;
    }
    proof {
        assert(ascii_ok(bytes@));
    }
    Ok(bytes)
}

/// Append the encoding of an identifier: both interned names in full.
pub fn write_ident(pool: &StringPool, id: Identifier, buf: &mut Vec<u8>)
    requires
        id.valid(pool@),
    ensures
        final(buf)@ == old(buf)@ + enc_ident(pool@, id),
{
    write_name(buf, pool.get(id.major));
    write_name(buf, pool.get(id.minor));
    proof {
        assert(buf@ =~= old(buf)@ + enc_ident(pool@, id));
    }
}

/// Read an identifier; `InvalidData` when a name is not in the pool.
pub fn try_read_ident(pool: &StringPool, buf: &mut Buffer) -> (r: Result<
    Identifier,
    SerializationError,
>)
    requires
        old(buf).wf(),
        pool.wf(),
    ensures
        final(buf).wf(),
        match parse_ident(pool@, old(buf).remaining()) {
            Some((id, rest)) => r == Ok::<Identifier, SerializationError>(id)
                && final(buf).remaining() == rest,
            None => r is Err,
        },
{
    let nm1 = match try_read_name(buf) {
        Err(e) => {
            return Err(e);
        },
        Ok(v) => v,
    };
    let major = match pool.find(&nm1) {
        None => {
            return Err(SerializationError::InvalidData);
        },
        Some(g) => g,
    };
    let nm2 = match try_read_name(buf) {
        Err(e) => {
            return Err(e);
        },
        Ok(v) => v,
    };
    let minor = match pool.find(&nm2) {
        None => {
            return Err(SerializationError::InvalidData);
        },
        Some(g) => g,
    };
    proof {
        let pl = pool@;
        let s = old(buf).remaining();
        assert(0 <= major.0 < pl.len() && pl[major.0 as int] == nm1@);
        assert(pool_contains(pl, nm1@));
        let i1 = pool_index_of(pl, nm1@);
        assert(0 <= i1 < pl.len() && pl[i1] == nm1@);
        assert(i1 == major.0 as int);
        assert(0 <= minor.0 < pl.len() && pl[minor.0 as int] == nm2@);
        assert(pool_contains(pl, nm2@));
        let i2 = pool_index_of(pl, nm2@);
        assert(0 <= i2 < pl.len() && pl[i2] == nm2@);
        assert(i2 == minor.0 as int);
    }
    Ok(Identifier { major, minor })
}


/// The bytes of an ASCII string, for interning or registration; `None` when
/// the string is not ASCII.
pub fn name_bytes(s: &str) -> (r: Option<Vec<u8>>)
    ensures
        match r {
            Some(v) => vstd::string::is_ascii(s) && v@ == s.spec_bytes() && ascii_ok(v@),
            None => !vstd::string::is_ascii(s),
        },
{
    if !s.is_ascii() {
        return None;
    }
    let v = s.as_bytes_vec();
    proof {
        broadcast use vstd::string::is_ascii_spec_bytes;
        broadcast use vstd::utf8::is_ascii_chars_nat_bound;
        assert(vstd::string::is_ascii(s));
        assert(vstd::utf8::is_ascii_chars(s@));
        assert forall|i: int| 0 <= i < v@.len() implies v@[i] < 128 by {
            assert(v@[i] == s@[i] as u8);
            assert((s@[i] as nat) < 128);
        }
    }
    Some(v)
}

} // verus!
