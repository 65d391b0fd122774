//! The archive format of the initial RAM disk: an 8-byte magic number, then
//! 24-byte header entries up to one tagged `End`, then the file contents.
//! Each entry holds a 15-byte zero-padded name, a tag byte and the begin and
//! end offsets of its file, as little-endian `u32`s, counted from the start
//! of the archive.
use vstd::prelude::*;
use vstd::string::StringSliceAdditionalSpecFns;

verus! {

/// The archive's first eight bytes, `*mewing*`, read as a little-endian `u64`.
pub const MAGIC: u64 = 0x2a67_6e69_7765_6d2a;

/// Size of the archive header.
pub const HEADER_SIZE: usize = 8;

/// Size of one header entry.
pub const ENTRY_SIZE: usize = 24;

/// Size of a file name field.
pub const NAME_SIZE: usize = 15;

/// Errors that can happen while reading an archive.
#[derive(Clone, Copy, Debug, PartialEq, Eq, Structural)]
pub enum Error {
    BadMagic,
    BadEntry,
}

/// The header at the start of an archive.
#[derive(Clone, Copy, Debug, PartialEq, Eq, Structural)]
pub struct Header {
    /// Magic bytes, `*mewing*`.
    pub magic: u64,
}

/// Offset into the archive.
#[derive(Clone, Copy, Debug, PartialEq, Eq, Structural)]
pub struct Offset(pub u32);

/// File name: UTF-8, ended by a zero byte.
#[derive(Clone, Copy, Debug, PartialEq, Eq)]
pub struct FileName(pub [u8; 15]);

/// Marks whether a header entry ends the header.
#[derive(Clone, Copy, Debug, PartialEq, Eq, Structural)]
pub enum HeaderEntryType {
    End,
    Entry,
}

/// Entry in the archive header.
#[derive(Clone, Copy, Debug)]
pub struct HeaderEntry {
    pub fname: FileName,
    pub tag: HeaderEntryType,
    pub begin: Offset,
    pub end: Offset,
}

/// The little-endian number in the four bytes `b`.
pub open spec fn le_u32(b: Seq<u8>) -> int {
    b[0] + b[1] * 0x100 + b[2] * 0x1_0000 + b[3] * 0x100_0000
}

/// The little-endian number in the eight bytes `b`.
pub open spec fn le_u64(b: Seq<u8>) -> int {
    le_u32(b) + le_u32(b.subrange(4, 8)) * 0x1_0000_0000
}

/// The four bytes of `x`, least significant first.
pub open spec fn u32_bytes(x: u32) -> Seq<u8> {
    seq![(x & 0xff) as u8, ((x >> 8u32) & 0xff) as u8, ((x >> 16u32) & 0xff) as u8, ((x >> 24u32) & 0xff) as u8]
}

/// The tag that a tag byte stands for.
pub open spec fn tag_of(b: u8) -> Option<HeaderEntryType> {
    if b == 0 {
        Some(HeaderEntryType::End)
    } else if b == 1 {
        Some(HeaderEntryType::Entry)
    } else {
        None
    }
}

/// The byte that stands for a tag.
pub open spec fn tag_byte(t: HeaderEntryType) -> u8 {
    match t {
        HeaderEntryType::End => 0,
        HeaderEntryType::Entry => 1,
    }
}

/// The 24 bytes that an entry is stored as.
pub open spec fn entry_bytes(e: HeaderEntry) -> Seq<u8> {
    e.fname.0@ + seq![tag_byte(e.tag)] + u32_bytes(e.begin.0) + u32_bytes(e.end.0)
}

/// Does `b` hold an entry that decodes to `e`?
pub open spec fn decodes_to(b: Seq<u8>, e: HeaderEntry) -> bool {
    &&& e.fname.0@ == b.subrange(0, 15)
    &&& tag_of(b[15]) == Some(e.tag)
    &&& e.begin.0 == le_u32(b.subrange(16, 20))
    &&& e.end.0 == le_u32(b.subrange(20, 24))
}

/// Is `n` the position of the first zero byte of `s`?
pub open spec fn first_zero(s: Seq<u8>, n: int) -> bool {
    &&& 0 <= n < s.len()
    &&& s[n] == 0
    &&& forall|j: int| 0 <= j < n ==> s[j] != 0
}

/// What `std::str::from_utf8` makes of the bytes `b`: their characters when
/// they are valid UTF-8, else `None`.
pub uninterp spec fn utf8_decode(b: Seq<u8>) -> Option<Seq<char>>;

/// Relies on `std::str::from_utf8`: it accepts a byte string exactly when it
/// is valid UTF-8, and what it returns depends on the bytes alone.
#[verifier::external_body]
fn str_from_utf8(b: &[u8]) -> (r: Option<&str>)
    ensures
        r is Some <==> utf8_decode(b@) is Some,
        r is Some ==> r->0@ == utf8_decode(b@)->0,
{
    std::str::from_utf8(b).ok()
}

proof fn lemma_le_u32_bits(a0: u8, a1: u8, a2: u8, a3: u8)
    by (bit_vector)
    ensures
        (a0 as u32) | ((a1 as u32) << 8u32) | ((a2 as u32) << 16u32) | ((a3 as u32) << 24u32) == a0 + a1
            * 0x100 + a2 * 0x1_0000 + a3 * 0x100_0000,
{
}

proof fn lemma_u32_bytes_bits(x: u32)
    by (bit_vector)
    ensures
        ((x & 0xff) as u8) + ((x >> 8u32) & 0xff) as u8 * 0x100 + ((x >> 16u32) & 0xff) as u8 * 0x1_0000
            + ((x >> 24u32) & 0xff) as u8 * 0x100_0000 == x,
{
}

/// Reading back the bytes of a number gives the number.
pub proof fn lemma_u32_roundtrip(x: u32)
    ensures
        u32_bytes(x).len() == 4,
        le_u32(u32_bytes(x)) == x,
{
    lemma_u32_bytes_bits(x);
}

/// Reads the little-endian `u32` at `pos`.
fn read_u32(b: &[u8], pos: usize) -> (r: u32)
    requires
        pos + 4 <= b@.len(),
    ensures
        r == le_u32(b@.subrange(pos as int, pos + 4)),
{
    let a0 = b[pos];
    let a1 = b[pos + 1];
    let a2 = b[pos + 2];
    let a3 = b[pos + 3];
    proof {
        lemma_le_u32_bits(a0, a1, a2, a3);
    }
    (a0 as u32) | ((a1 as u32) << 8u32) | ((a2 as u32) << 16u32) | ((a3 as u32) << 24u32)
}

/// Appends the little-endian bytes of `x`.
fn push_u32(out: &mut Vec<u8>, x: u32)
    ensures
        final(out)@ == old(out)@ + u32_bytes(x),
{
    out.push((x & 0xff) as u8);
    out.push(((x >> 8u32) & 0xff) as u8);
    out.push(((x >> 16u32) & 0xff) as u8);
    out.push(((x >> 24u32) & 0xff) as u8);
    assert(out@ =~= old(out)@ + u32_bytes(x));
}

impl HeaderEntryType {
    /// The tag that a tag byte stands for; `Err` for any other byte.
    pub fn try_from_u8(t: u8) -> (r: Result<HeaderEntryType, ()>)
        ensures
            r is Ok <==> tag_of(t) is Some,
            r is Ok ==> tag_of(t) == Some(r->Ok_0),
    {
        if t == 0 {
            Ok(HeaderEntryType::End)
        } else if t == 1 {
            Ok(HeaderEntryType::Entry)
        } else {
            Err(())
        }
    }

    /// The byte that stands for the tag.
    pub fn as_u8(&self) -> (r: u8)
        ensures
            r == tag_byte(*self),
    {
        match self {
            HeaderEntryType::End => 0,
            HeaderEntryType::Entry => 1,
        }
    }

    /// Appends the tag byte to `out`.
    pub fn serialize(&self, out: &mut Vec<u8>)
        ensures
            final(out)@ == old(out)@.push(tag_byte(*self)),
    {
        out.push(self.as_u8());
    }
}

impl Offset {
    /// Appends the offset's little-endian bytes to `out`.
    pub fn serialize(&self, out: &mut Vec<u8>)
        ensures
            final(out)@ == old(out)@ + u32_bytes(self.0),
    {
        push_u32(out, self.0);
    }
}

impl FileName {
    /// The name with no bytes.
    pub fn empty() -> (r: FileName)
        ensures
            forall|i: int| 0 <= i < 15 ==> r.0@[i] == 0,
    {
        FileName([0u8; 15])
    }

    /// Gets the file name as a string: the bytes before the first zero byte,
    /// which must be UTF-8.
    pub fn as_str(&self) -> (r: Result<&str, Error>)
        ensures
            (forall|n: int| !first_zero(self.0@, n)) ==> r == Err::<&str, Error>(Error::BadEntry),
            forall|n: int|
                first_zero(self.0@, n) ==> match utf8_decode(self.0@.subrange(0, n)) {
                    Some(s) => r is Ok && r->Ok_0@ == s,
                    None => r == Err::<&str, Error>(Error::BadEntry),
                },
    {
        let mut i: usize = 0;
        while i < NAME_SIZE
            invariant
                i <= 15,
                forall|j: int| 0 <= j < i ==> self.0@[j] != 0,
            decreases 15 - i,
        {
            if self.0[i] == 0 {
                let whole = self.0.as_slice();
                let s = whole.split_at(i).0;
                proof {
                    assert(whole@ == self.0@);
                    assert(s@ == self.0@.subrange(0, i as int));
                    assert(first_zero(self.0@, i as int));
                    assert forall|n: int| first_zero(self.0@, n) implies n == i by {
                        if n < i {
                        } else if n > i {
                            assert(self.0@[i as int] == 0);
                        }
                    }
                }
                return match str_from_utf8(s) {
                    Some(t) => Ok(t),
                    None => Err(Error::BadEntry),
                };
            }
            i = i + 1;
        }
        Err(Error::BadEntry)
    }

    /// Makes a file name from a string of at most 14 bytes, padded with zeroes.
    pub fn new(name: &str) -> (r: Result<FileName, Error>)
        ensures
            r is Ok <==> name.spec_bytes().len() <= 14,
            r is Err ==> r == Err::<FileName, Error>(Error::BadEntry),
            r is Ok ==> r->Ok_0.0@ == name.spec_bytes() + Seq::new(
                (15 - name.spec_bytes().len()) as nat,
                |i: int| 0u8,
            ),
    {
        let bytes = name.as_bytes();
        if bytes.len() > 14 {
            return Err(Error::BadEntry);
        }
        let mut out = [0u8; 15];
        let mut i: usize = 0;
        while i < bytes.len()
            invariant
                i <= bytes@.len() <= 14,
                forall|j: int| 0 <= j < i ==> out@[j] == bytes@[j],
                forall|j: int| i <= j < 15 ==> out@[j] == 0,
            decreases bytes@.len() - i,
        {
            out[i] = bytes[i];
            i = i + 1;
        }
        let r = FileName(out);
        assert(r.0@ =~= name.spec_bytes() + Seq::new((15 - name.spec_bytes().len()) as nat, |i: int| 0u8));
        Ok(r)
    }

    /// Appends the 15 name bytes to `out`.
    pub fn serialize(&self, out: &mut Vec<u8>)
        ensures
            final(out)@ == old(out)@ + self.0@,
    {
        let mut i: usize = 0;
        while i < NAME_SIZE
            invariant
                i <= 15,
                out@ == old(out)@ + self.0@.subrange(0, i as int),
            decreases 15 - i,
        {
            out.push(self.0[i]);
            i = i + 1;
            assert(out@ =~= old(out)@ + self.0@.subrange(0, i as int));
        }
        assert(self.0@.subrange(0, 15) =~= self.0@);
    }
}

impl HeaderEntry {
    /// Appends the entry's 24 bytes to `out`.
    pub fn serialize(&self, out: &mut Vec<u8>)
        ensures
            final(out)@ == old(out)@ + entry_bytes(*self),
    {
        self.fname.serialize(out);
        self.tag.serialize(out);
        self.begin.serialize(out);
        self.end.serialize(out);
        assert(out@ =~= old(out)@ + entry_bytes(*self));
    }

    /// Reads the entry at the start of `slice`, returning it and the bytes
    /// after it. Fails when fewer than 24 bytes are left or the tag byte is
    /// neither 0 nor 1.
    pub fn deserialize(slice: &[u8]) -> (r: Result<(HeaderEntry, &[u8]), Error>)
        ensures
            r is Ok <==> slice@.len() >= 24 && tag_of(slice@[15]) is Some,
            r is Err ==> r == Err::<(HeaderEntry, &[u8]), Error>(Error::BadEntry),
            r is Ok ==> decodes_to(slice@, r->Ok_0.0) && r->Ok_0.1@ == slice@.subrange(24, slice@.len() as int),
    {
        if slice.len() < ENTRY_SIZE {
            return Err(Error::BadEntry);
        }
        let tag = match HeaderEntryType::try_from_u8(slice[15]) {
            Ok(t) => t,
            Err(()) => {
                return Err(Error::BadEntry);
            },
        };
        let mut fname = [0u8; 15];
        let mut i: usize = 0;
        while i < NAME_SIZE
            invariant
                i <= 15,
                slice@.len() >= 24,
                forall|j: int| 0 <= j < i ==> fname@[j] == slice@[j],
            decreases 15 - i,
        {
            fname[i] = slice[i];
            i = i + 1;
        }
        let begin = Offset(read_u32(slice, 16));
        let end = Offset(read_u32(slice, 20));
        let rest = slice.split_at(ENTRY_SIZE).1;
        let e = HeaderEntry { fname: FileName(fname), tag, begin, end };
        assert(e.fname.0@ =~= slice@.subrange(0, 15));
        Ok((e, rest))
    }
}

/// Decoding the bytes of an entry gives the entry back.
pub proof fn lemma_entry_roundtrip(e: HeaderEntry)
    ensures
        entry_bytes(e).len() == 24,
        decodes_to(entry_bytes(e), e),
{
    let b = entry_bytes(e);
    lemma_u32_roundtrip(e.begin.0);
    lemma_u32_roundtrip(e.end.0);
    assert(b.subrange(0, 15) =~= e.fname.0@);
    assert(b.subrange(16, 20) =~= u32_bytes(e.begin.0));
    assert(b.subrange(20, 24) =~= u32_bytes(e.end.0));
}

/// A reader of an archive held in memory.
#[derive(Debug)]
pub struct Microflop<'a> {
    region: &'a [u8],
}

/// An iterator over the files of an archive.
pub struct IterFiles<'a> {
    region: &'a [u8],
    start: &'a [u8],
}

/// An iterator over the entries of an archive, with the file of each.
pub struct IterEntries<'a> {
    region: &'a [u8],
    start: &'a [u8],
}

impl<'a> Microflop<'a> {
    #[verifier::type_invariant]
    spec fn has_header(self) -> bool {
        self.region@.len() >= 8
    }

    /// The bytes of the archive.
    pub closed spec fn bytes(self) -> Seq<u8> {
        self.region@
    }

    /// Opens the archive in `region`; it must start with the magic number.
    pub fn new(region: &'a [u8]) -> (r: Result<Microflop<'a>, Error>)
        ensures
            r is Ok <==> region@.len() >= 8 && le_u64(region@.subrange(0, 8)) == MAGIC,
            r is Err ==> r == Err::<Microflop, Error>(Error::BadMagic),
            r is Ok ==> r->Ok_0.bytes() == region@,
    {
        if region.len() < HEADER_SIZE {
            return Err(Error::BadMagic);
        }
        let lo = read_u32(region, 0);
        let hi = read_u32(region, 4);
        let magic = (lo as u64) | ((hi as u64) << 32u64);
        proof {
            assert((lo as u64) | ((hi as u64) << 32u64) == lo + hi * 0x1_0000_0000) by (bit_vector);
            assert(region@.subrange(0, 8).subrange(4, 8) =~= region@.subrange(4, 8));
            assert(region@.subrange(0, 8).subrange(0, 4) =~= region@.subrange(0, 4));
        }
        if magic != MAGIC {
            return Err(Error::BadMagic);
        }
        Ok(Microflop { region })
    }

    /// Iterates over the files of the archive.
    pub fn files(&self) -> (r: IterFiles<'a>)
        ensures
            r.archive() == self.bytes(),
            r.rest() == self.bytes().subrange(8, self.bytes().len() as int),
    {
        proof {
            use_type_invariant(self);
        }
        IterFiles { region: self.region, start: self.region.split_at(HEADER_SIZE).1 }
    }

    /// Iterates over the entries of the archive.
    pub fn entries(&self) -> (r: IterEntries<'a>)
        ensures
            r.archive() == self.bytes(),
            r.rest() == self.bytes().subrange(8, self.bytes().len() as int),
    {
        proof {
            use_type_invariant(self);
        }
        IterEntries { region: self.region, start: self.region.split_at(HEADER_SIZE).1 }
    }
}

impl<'a> IterFiles<'a> {
    /// The bytes of the whole archive.
    pub closed spec fn archive(self) -> Seq<u8> {
        self.region@
    }

    /// The header bytes not read yet.
    pub closed spec fn rest(self) -> Seq<u8> {
        self.start@
    }

    /// The next file: its name and its bytes. `None` at the entry that ends
    /// the header, and on every call after it; `BadEntry` for an entry that
    /// cannot be read or whose file lies outside the archive.
    pub fn next(&mut self) -> (r: Result<Option<(FileName, &'a [u8])>, Error>)
        ensures
            final(self).archive() == old(self).archive(),
            r is Ok <==> old(self).rest().len() >= 24 && (tag_of(old(self).rest()[15]) == Some(
                HeaderEntryType::End,
            ) || (tag_of(old(self).rest()[15]) == Some(HeaderEntryType::Entry) && le_u32(
                old(self).rest().subrange(16, 20),
            ) <= le_u32(old(self).rest().subrange(20, 24)) && le_u32(old(self).rest().subrange(20, 24))
                <= old(self).archive().len())),
            r is Err ==> r == Err::<Option<(FileName, &[u8])>, Error>(Error::BadEntry) && *final(self)
                == *old(self),
            r == Ok::<Option<(FileName, &[u8])>, Error>(None) ==> *final(self) == *old(self),
            r is Ok ==> (r->Ok_0 is None <==> tag_of(old(self).rest()[15]) == Some(HeaderEntryType::End)),
            r is Ok && r->Ok_0 is Some ==> ({
                let (name, data) = r->Ok_0->0;
                &&& name.0@ == old(self).rest().subrange(0, 15)
                &&& data@ == old(self).archive().subrange(
                    le_u32(old(self).rest().subrange(16, 20)),
                    le_u32(old(self).rest().subrange(20, 24)),
                )
                &&& final(self).rest() == old(self).rest().subrange(24, old(self).rest().len() as int)
            }),
    {
        let (entry, rest) = match HeaderEntry::deserialize(self.start) {
            Ok(p) => p,
            Err(e) => {
                return Err(e);
            },
        };
        match entry.tag {
            HeaderEntryType::End => Ok(None),
            HeaderEntryType::Entry => {
                let b = entry.begin.0 as usize;
                let e = entry.end.0 as usize;
                if b <= e && e <= self.region.len() {
                    self.start = rest;
                    Ok(Some((entry.fname, &self.region[b..e])))
                } else {
                    Err(Error::BadEntry)
                }
            },
        }
    }
}

impl<'a> IterEntries<'a> {
    /// The bytes of the whole archive.
    pub closed spec fn archive(self) -> Seq<u8> {
        self.region@
    }

    /// The header bytes not read yet.
    pub closed spec fn rest(self) -> Seq<u8> {
        self.start@
    }

    /// The next entry and the bytes of its file. `None` at the entry that
    /// ends the header, and on every call after it; `BadEntry` for an entry
    /// that cannot be read or whose file lies outside the archive.
    pub fn next(&mut self) -> (r: Result<Option<(HeaderEntry, &'a [u8])>, Error>)
        ensures
            final(self).archive() == old(self).archive(),
            r is Ok <==> old(self).rest().len() >= 24 && (tag_of(old(self).rest()[15]) == Some(
                HeaderEntryType::End,
            ) || (tag_of(old(self).rest()[15]) == Some(HeaderEntryType::Entry) && le_u32(
                old(self).rest().subrange(16, 20),
            ) <= le_u32(old(self).rest().subrange(20, 24)) && le_u32(old(self).rest().subrange(20, 24))
                <= old(self).archive().len())),
            r is Err ==> r == Err::<Option<(HeaderEntry, &[u8])>, Error>(Error::BadEntry) && *final(self)
                == *old(self),
            r == Ok::<Option<(HeaderEntry, &[u8])>, Error>(None) ==> *final(self) == *old(self),
            r is Ok ==> (r->Ok_0 is None <==> tag_of(old(self).rest()[15]) == Some(HeaderEntryType::End)),
            r is Ok && r->Ok_0 is Some ==> ({
                let (entry, data) = r->Ok_0->0;
                &&& decodes_to(old(self).rest(), entry)
                &&& data@ == old(self).archive().subrange(entry.begin.0 as int, entry.end.0 as int)
                &&& final(self).rest() == old(self).rest().subrange(24, old(self).rest().len() as int)
            }),
    {
        let (entry, rest) = match HeaderEntry::deserialize(self.start) {
            Ok(p) => p,
            Err(e) => {
                return Err(e);
            },
        };
        match entry.tag {
            HeaderEntryType::End => Ok(None),
            HeaderEntryType::Entry => {
                let b = entry.begin.0 as usize;
                let e = entry.end.0 as usize;
                if b <= e && e <= self.region.len() {
                    self.start = rest;
                    Ok(Some((entry, &self.region[b..e])))
                } else {
                    Err(Error::BadEntry)
                }
            },
        }
    }
}

/// Number of zero bytes that pad a file of `n` bytes to a multiple of 8.
pub open spec fn pad_len(n: int) -> int {
    (8 - n % 8) % 8
}

/// Bytes taken by the first `i` files, each padded to a multiple of 8.
pub open spec fn padded_total(cs: Seq<Vec<u8>>, i: int) -> int
    decreases i,
{
    if i <= 0 {
        0
    } else {
        padded_total(cs, i - 1) + cs[i - 1]@.len() + pad_len(cs[i - 1]@.len() as int)
    }
}

/// Offset of the first file's bytes in an archive of `n` files: after the
/// header and `n + 1` entries.
pub open spec fn data_start(n: int) -> int {
    8 + 24 * (n + 1)
}

/// Offset of the bytes of file `i`.
pub open spec fn file_begin(cs: Seq<Vec<u8>>, i: int) -> int {
    data_start(cs.len() as int) + padded_total(cs, i)
}

/// The entry that describes file `i`.
pub open spec fn file_entry(names: Seq<FileName>, cs: Seq<Vec<u8>>, i: int) -> HeaderEntry {
    HeaderEntry {
        fname: names[i],
        tag: HeaderEntryType::Entry,
        begin: Offset(file_begin(cs, i) as u32),
        end: Offset((file_begin(cs, i) + cs[i]@.len()) as u32),
    }
}

/// The bytes of the entries of the first `i` files.
pub open spec fn entries_bytes(names: Seq<FileName>, cs: Seq<Vec<u8>>, i: int) -> Seq<u8>
    decreases i,
{
    if i <= 0 {
        Seq::empty()
    } else {
        entries_bytes(names, cs, i - 1) + entry_bytes(file_entry(names, cs, i - 1))
    }
}

/// The padded bytes of the first `i` files.
pub open spec fn data_bytes(cs: Seq<Vec<u8>>, i: int) -> Seq<u8>
    decreases i,
{
    if i <= 0 {
        Seq::empty()
    } else {
        data_bytes(cs, i - 1) + cs[i - 1]@ + Seq::new(pad_len(cs[i - 1]@.len() as int) as nat, |k: int| 0u8)
    }
}

/// The entry that ends the header.
pub open spec fn end_entry() -> Seq<u8> {
    Seq::new(15, |k: int| 0u8) + seq![0u8] + u32_bytes(0) + u32_bytes(0)
}

/// Do the offsets of every file fit in a `u32`?
pub open spec fn offsets_fit(cs: Seq<Vec<u8>>) -> bool {
    forall|i: int| 0 <= i < cs.len() ==> #[trigger] file_begin(cs, i) + cs[i]@.len() <= u32::MAX
}

/// The archive of the files `cs` named `names`.
pub open spec fn archive_bytes(names: Seq<FileName>, cs: Seq<Vec<u8>>) -> Seq<u8> {
    u32_bytes(0x7765_6d2a) + u32_bytes(0x2a67_6e69) + entries_bytes(names, cs, cs.len() as int)
        + end_entry() + data_bytes(cs, cs.len() as int)
}

proof fn lemma_padded_total_nonneg(cs: Seq<Vec<u8>>, i: int)
    ensures
        padded_total(cs, i) >= 0,
    decreases i,
{
    if i > 0 {
        lemma_padded_total_nonneg(cs, i - 1);
    }
}

/// Builds the archive of the files `contents` named `names`: the magic
/// number, an entry for each file and the entry that ends the header, then
/// each file padded with zeroes to a multiple of 8 bytes. `None` when an
/// offset does not fit in a `u32`.
pub fn build_archive(names: &Vec<FileName>, contents: &Vec<Vec<u8>>) -> (r: Option<Vec<u8>>)
    requires
        names@.len() == contents@.len(),
    ensures
        r is Some <==> offsets_fit(contents@),
        r is Some ==> r->0@ == archive_bytes(names@, contents@),
{
    let n = contents.len();
    if n > 0x0aaa_aaa9 {
        proof {
            assert(padded_total(contents@, 0) == 0);
            assert(data_start(n as int) > u32::MAX);
            assert(file_begin(contents@, 0) + contents@[0]@.len() > u32::MAX);
        }
        return None;
    }
    let mut out: Vec<u8> = Vec::new();
    push_u32(&mut out, 0x7765_6d2a);
    push_u32(&mut out, 0x2a67_6e69);
    let start: u64 = 8 + 24 * ((n as u64) + 1);
    let mut pos: u64 = start;
    let mut i: usize = 0;
    while i < n
        invariant
            n == contents@.len(),
            n == names@.len(),
            n <= 0x0aaa_aaa9,
            i <= n,
            pos == file_begin(contents@, i as int),
            pos <= u32::MAX + 8,
            forall|j: int| 0 <= j < i ==> #[trigger] file_begin(contents@, j) + contents@[j]@.len() <= u32::MAX,
            out@ == u32_bytes(0x7765_6d2a) + u32_bytes(0x2a67_6e69) + entries_bytes(names@, contents@, i as int),
        decreases n - i,
    {
        let len = contents[i].len() as u64;
        let end = match pos.checked_add(len) {
            Some(e) => e,
            None => {
                return None;
            },
        };
        if end > 0xffff_ffffu64 {
            return None;
        }
        let e = HeaderEntry {
            fname: names[i],
            tag: HeaderEntryType::Entry,
            begin: Offset(pos as u32),
            end: Offset(end as u32),
        };
        e.serialize(&mut out);
        let pad = (8 - len % 8) % 8;
        proof {
            lemma_padded_total_nonneg(contents@, i as int);
        }
        pos = end + pad;
        i = i + 1;
    }
    let terminator = HeaderEntry {
        fname: FileName::empty(),
        tag: HeaderEntryType::End,
        begin: Offset(0),
        end: Offset(0),
    };
    terminator.serialize(&mut out);
    assert(terminator.fname.0@ =~= Seq::new(15, |k: int| 0u8));
    let mut i: usize = 0;
    while i < n
        invariant
            n == contents@.len(),
            n == names@.len(),
            i <= n,
            out@ == u32_bytes(0x7765_6d2a) + u32_bytes(0x2a67_6e69) + entries_bytes(names@, contents@, n as int)
                + end_entry() + data_bytes(contents@, i as int),
        decreases n - i,
    {
        let ghost before = out@;
        let c = &contents[i];
        let mut k: usize = 0;
        while k < c.len()
            invariant
                k <= c@.len(),
                out@ == before + c@.subrange(0, k as int),
            decreases c@.len() - k,
        {
            out.push(c[k]);
            k = k + 1;
            assert(out@ =~= before + c@.subrange(0, k as int));
        }
        let pad: usize = (8 - c.len() % 8) % 8;
        let ghost mid = out@;
        let mut k: usize = 0;
        while k < pad
            invariant
                k <= pad,
                out@ == mid + Seq::new(k as nat, |q: int| 0u8),
            decreases pad - k,
        {
            out.push(0);
            k = k + 1;
            assert(out@ =~= mid + Seq::new(k as nat, |q: int| 0u8));
        }
        assert(c@.subrange(0, c@.len() as int) =~= c@);
        assert(out@ =~= u32_bytes(0x7765_6d2a) + u32_bytes(0x2a67_6e69) + entries_bytes(names@, contents@, n as int)
            + end_entry() + data_bytes(contents@, i + 1));
        i = i + 1;
    }
    Some(out)
}

} // verus!
