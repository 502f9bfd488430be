//! The wire format: an eight-byte header, sender id then size and
//! opcode, followed by arguments in 32-bit words in the host's byte
//! order, as the protocol has them. Public so
//! a test can script a compositor with the same encoder and decoder.
use vstd::bytes::{lemma_auto_spec_u32_to_from_le_bytes, spec_u32_from_le_bytes, spec_u32_to_le_bytes};
use vstd::endian::{endianness, Endian};
use vstd::prelude::*;
use vstd::slice::slice_subrange;
use vstd::string::StringSliceAdditionalSpecFns;
use vstd::utf8::{decode_utf8, encode_utf8, encode_utf8_decode_utf8, encode_utf8_valid_utf8, valid_utf8};

use crate::wayland::ObjectId;

verus! {

/// The length of a message header.
pub const HEADER: usize = 8;

/// The header of one message.
#[derive(Debug, Clone, Copy, PartialEq, Eq, Structural)]
pub struct Header {
    pub sender: ObjectId,
    pub opcode: u16,
    /// The whole message, header included.
    pub size: usize,
}

// ---------------------------------------------------------------------------
// The words
// ---------------------------------------------------------------------------

/// One word as it lies on the wire: its four bytes in the host's byte
/// order, least significant first on a little-endian host, most
/// significant first on a big-endian one.
pub open spec fn word_bytes(v: u32) -> Seq<u8> {
    if endianness() is Little {
        spec_u32_to_le_bytes(v)
    } else {
        spec_u32_to_le_bytes(v).reverse()
    }
}

/// The word four bytes in the host's byte order stand for.
pub open spec fn word_of(w: Seq<u8>) -> u32 {
    if endianness() is Little {
        spec_u32_from_le_bytes(w)
    } else {
        spec_u32_from_le_bytes(w.reverse())
    }
}

/// The word at byte `o` of `data`.
pub open spec fn word_at(data: Seq<u8>, o: int) -> u32 {
    word_of(data.subrange(o, o + 4))
}

/// A word is four bytes, and its bytes read back as the word; four bytes
/// are the bytes of the word they read as.
pub proof fn lemma_auto_words()
    ensures
        forall|v: u32| #[trigger] word_bytes(v).len() == 4 && word_of(word_bytes(v)) == v,
        forall|w: Seq<u8>| w.len() == 4 ==> #[trigger] word_bytes(word_of(w)) == w,
{
    lemma_auto_spec_u32_to_from_le_bytes();
    assert forall|v: u32| #[trigger] word_bytes(v).len() == 4 && word_of(word_bytes(v)) == v by {
        let b = spec_u32_to_le_bytes(v);
        assert(b.reverse().reverse() =~= b);
    }
    assert forall|w: Seq<u8>| w.len() == 4 implies #[trigger] word_bytes(word_of(w)) == w by {
        assert(w.reverse().len() == 4);
        assert(w.reverse().reverse() =~= w);
    }
}

/// A word reads back as the value written, and is four bytes long.
pub proof fn lemma_word_round_trip(v: u32, prefix: Seq<u8>, rest: Seq<u8>)
    ensures
        word_bytes(v).len() == 4,
        word_at(prefix + word_bytes(v) + rest, prefix.len() as int) == v,
{
    lemma_auto_words();
    let data = prefix + word_bytes(v) + rest;
    assert(data.subrange(prefix.len() as int, prefix.len() + 4int) =~= word_bytes(v));
}

/// `u32::to_ne_bytes`: the word's bytes in the host's byte order.
#[verifier::external_body]
fn ne_bytes(v: u32) -> (r: Vec<u8>)
    ensures
        r@ == word_bytes(v),
{
    v.to_ne_bytes().to_vec()
}

/// `u32::from_ne_bytes`: the word four bytes stand for in the host's byte
/// order.
#[verifier::external_body]
fn from_ne_bytes(w: &[u8]) -> (r: u32)
    requires
        w@.len() == 4,
    ensures
        r == word_of(w@),
{
    u32::from_ne_bytes([w[0], w[1], w[2], w[3]])
}

/// The second header word: the message size in the high half, the opcode
/// in the low half. A size past 16 bits keeps its low 16.
pub open spec fn size_word(size: nat, opcode: u16) -> u32 {
    ((size % 0x10000) * 0x10000 + opcode) as u32
}

/// The bytes of a whole message: the header, then the body.
pub open spec fn message(sender: u32, opcode: u16, body: Seq<u8>) -> Seq<u8> {
    word_bytes(sender) + word_bytes(size_word(8 + body.len(), opcode)) + body
}

/// The header at the start of `bytes`, or `None` if fewer than eight.
pub open spec fn spec_header(bytes: Seq<u8>) -> Option<Header> {
    if bytes.len() < 8 {
        None
    } else {
        let word = word_at(bytes, 4);
        Some(
            Header {
                sender: ObjectId(word_at(bytes, 0)),
                opcode: (word % 0x10000) as u16,
                size: (word / 0x10000) as usize,
            },
        )
    }
}

fn word(data: &[u8], o: usize) -> (r: u32)
    requires
        o + 4 <= data@.len(),
    ensures
        r == word_at(data@, o as int),
{
    let end = o + (data.len() - o).min(4);
    from_ne_bytes(slice_subrange(data, o, end))
}

/// The header at the start of `bytes`, or `None` if fewer than eight.
pub fn header(bytes: &[u8]) -> (r: Option<Header>)
    ensures
        r == spec_header(bytes@),
{
    if bytes.len() < HEADER {
        return None;
    }
    let sender = word(bytes, 0);
    let w = word(bytes, 4);
    Some(Header { sender: ObjectId(sender), opcode: (w % 0x10000) as u16, size: (w / 0x10000) as usize })
}

/// The header of a message reads back its sender, its opcode and its size,
/// which is the length of the whole message while that fits in 16 bits.
pub proof fn lemma_header_of_message(sender: u32, opcode: u16, body: Seq<u8>, rest: Seq<u8>)
    ensures
        message(sender, opcode, body).len() == 8 + body.len(),
        spec_header(message(sender, opcode, body) + rest) == Some(
            Header {
                sender: ObjectId(sender),
                opcode,
                size: ((8 + body.len()) % 0x10000) as usize,
            },
        ),
{
    let s = word_bytes(size_word((8 + body.len()) as nat, opcode));
    lemma_word_round_trip(sender, Seq::empty(), s + body + rest);
    lemma_word_round_trip(size_word((8 + body.len()) as nat, opcode), word_bytes(sender), body + rest);
    let data = message(sender, opcode, body) + rest;
    assert(data =~= Seq::<u8>::empty() + word_bytes(sender) + (s + body + rest));
    assert(data =~= word_bytes(sender) + s + (body + rest));
    let size = (8 + body.len()) % 0x10000;
    assert(size_word((8 + body.len()) as nat, opcode) == size * 0x10000 + opcode);
}

// ---------------------------------------------------------------------------
// Reading
// ---------------------------------------------------------------------------

/// `n` rounded up to a whole number of words.
pub open spec fn pad4(n: nat) -> nat {
    (n + (4 - n % 4) % 4) as nat
}

/// A word read at `o`: the value and the offset after it, or `None` and
/// `o` when fewer than four bytes remain.
pub open spec fn read_uint(data: Seq<u8>, o: int) -> (Option<u32>, int) {
    if o + 4 <= data.len() {
        (Some(word_at(data, o)), o + 4)
    } else {
        (None, o)
    }
}

/// The signed view of a word.
pub open spec fn as_int(v: u32) -> i32 {
    v as i32
}

/// `len` bytes of payload at `o`, which takes `pad4(len)` bytes of the
/// wire: the payload and the offset after the padding.
pub open spec fn read_bytes(data: Seq<u8>, o: int, len: nat) -> (Option<Seq<u8>>, int) {
    if o + pad4(len) <= data.len() {
        (Some(data.subrange(o, o + len)), o + pad4(len))
    } else {
        (None, o)
    }
}

/// A string at `o`: a length word counting the terminating nul, then the
/// padded bytes. `None` for a zero length, a short body, or bytes before
/// the nul that are not UTF-8.
pub open spec fn read_string(data: Seq<u8>, o: int) -> (Option<Seq<char>>, int) {
    let (len, o1) = read_uint(data, o);
    match len {
        None => (None, o1),
        Some(len) => {
            let (raw, o2) = read_bytes(data, o1, len as nat);
            match raw {
                None => (None, o2),
                Some(raw) => if len == 0 || !valid_utf8(raw.take(len - 1)) {
                    (None, o2)
                } else {
                    (Some(decode_utf8(raw.take(len - 1))), o2)
                },
            }
        },
    }
}

/// What a string read gives, case by case: nothing when fewer than four
/// bytes are left, when the length is zero, when fewer than the padded
/// length follow the length word, or when the bytes before the nul are
/// not UTF-8; otherwise the chars those bytes encode, and the read moves
/// past the padding.
pub proof fn law_a_string_reads_as_its_length_says(data: Seq<u8>, o: int)
    requires
        0 <= o,
    ensures
        o + 4 > data.len() ==> read_string(data, o).0 is None,
        o + 4 <= data.len() ==> {
            let len = word_at(data, o);
            let body = data.subrange(o + 4, o + 4 + len - 1);
            &&& len == 0 ==> read_string(data, o).0 is None
            &&& o + 4 + pad4(len as nat) > data.len() ==> read_string(data, o).0 is None
            &&& (len != 0 && o + 4 + pad4(len as nat) <= data.len()) ==> {
                &&& !valid_utf8(body) ==> read_string(data, o).0 is None
                &&& valid_utf8(body) ==> read_string(data, o) == (
                    Some(decode_utf8(body)),
                    o + 4 + pad4(len as nat),
                )
            }
        },
{
    if o + 4 <= data.len() {
        let len = word_at(data, o);
        if len != 0 && o + 4 + pad4(len as nat) <= data.len() {
            let raw = data.subrange(o + 4, o + 4 + len);
            assert(raw.take(len - 1) =~= data.subrange(o + 4, o + 4 + len - 1));
        }
    }
}

/// A nullable string at `o`: a zero length is the null string.
pub open spec fn read_string_opt(data: Seq<u8>, o: int) -> (Option<Option<Seq<char>>>, int) {
    let (len, o1) = read_uint(data, o);
    match len {
        None => (None, o1),
        Some(len) => if len == 0 {
            (Some(None), o1)
        } else {
            let (raw, o2) = read_bytes(data, o1, len as nat);
            match raw {
                None => (None, o2),
                Some(raw) => if !valid_utf8(raw.take(len - 1)) {
                    (None, o2)
                } else {
                    (Some(Some(decode_utf8(raw.take(len - 1)))), o2)
                },
            }
        },
    }
}

/// An array at `o`: a length word, then the padded bytes.
pub open spec fn read_array(data: Seq<u8>, o: int) -> (Option<Seq<u8>>, int) {
    let (len, o1) = read_uint(data, o);
    match len {
        None => (None, o1),
        Some(len) => read_bytes(data, o1, len as nat),
    }
}

/// The bytes of `bytes`, when they are UTF-8: `std::str::from_utf8`.
#[verifier::external_body]
fn utf8(bytes: &[u8]) -> (r: Option<&str>)
    ensures
        match r {
            Some(s) => valid_utf8(bytes@) && s.spec_bytes() == bytes@,
            None => !valid_utf8(bytes@),
        },
{
    std::str::from_utf8(bytes).ok()
}

/// An owned copy of `bytes`.
pub fn copy_bytes(bytes: &[u8]) -> (r: Vec<u8>)
    ensures
        r@ == bytes@,
{
    let mut v: Vec<u8> = Vec::new();
    let mut i: usize = 0;
    while i < bytes.len()
        invariant
            i <= bytes@.len(),
            v@ == bytes@.take(i as int),
        decreases bytes@.len() - i,
    {
        v.push(bytes[i]);
        i = i + 1;
        assert(v@ =~= bytes@.take(i as int));
    }
    assert(bytes@.take(i as int) =~= bytes@);
    v
}

/// Reads arguments from a message body. Every read is `None` past the
/// end or on malformed data, so a decoder is `?` all the way down.
pub struct Reader<'a> {
    data: &'a [u8],
    o: usize,
}

impl<'a> Reader<'a> {
    #[verifier::type_invariant]
    spec fn inv(self) -> bool {
        self.o <= self.data@.len()
    }

    /// The body being read.
    pub closed spec fn data(self) -> Seq<u8> {
        self.data@
    }

    /// How far into the body the reader is.
    pub closed spec fn offset(self) -> int {
        self.o as int
    }

    pub fn new(data: &'a [u8]) -> (r: Self)
        ensures
            r.data() == data@,
            r.offset() == 0,
    {
        Reader { data, o: 0 }
    }

    pub fn uint(&mut self) -> (r: Option<u32>)
        ensures
            final(self).data() == old(self).data(),
            (r, final(self).offset()) == read_uint(old(self).data(), old(self).offset()),
    {
        proof {
            use_type_invariant(&*self);
        }
        if self.data.len() - self.o < 4 {
            return None;
        }
        let v = word(self.data, self.o);
        self.o = self.o + 4;
        Some(v)
    }

    pub fn signed(&mut self) -> (r: Option<i32>)
        ensures
            final(self).data() == old(self).data(),
            final(self).offset() == read_uint(old(self).data(), old(self).offset()).1,
            r == match read_uint(old(self).data(), old(self).offset()).0 {
                Some(v) => Some(as_int(v)),
                None => None,
            },
    {
        match self.uint() {
            Some(v) => Some(v as i32),
            None => None,
        }
    }

    pub fn object(&mut self) -> (r: Option<ObjectId>)
        ensures
            final(self).data() == old(self).data(),
            final(self).offset() == read_uint(old(self).data(), old(self).offset()).1,
            r == match read_uint(old(self).data(), old(self).offset()).0 {
                Some(v) => Some(ObjectId(v)),
                None => None,
            },
    {
        match self.uint() {
            Some(v) => Some(ObjectId(v)),
            None => None,
        }
    }

    /// A nullable object: zero is the null object.
    pub fn object_opt(&mut self) -> (r: Option<Option<ObjectId>>)
        ensures
            final(self).data() == old(self).data(),
            final(self).offset() == read_uint(old(self).data(), old(self).offset()).1,
            r == match read_uint(old(self).data(), old(self).offset()).0 {
                Some(v) => Some(if v != 0 { Some(ObjectId(v)) } else { None }),
                None => None,
            },
    {
        match self.uint() {
            Some(v) => Some(if v != 0 { Some(ObjectId(v)) } else { None }),
            None => None,
        }
    }

    fn bytes(&mut self, len: usize) -> (r: Option<&'a [u8]>)
        ensures
            final(self).data() == old(self).data(),
            final(self).offset() == read_bytes(old(self).data(), old(self).offset(), len as nat).1,
            match r {
                Some(raw) => read_bytes(old(self).data(), old(self).offset(), len as nat).0
                    == Some(raw@),
                None => read_bytes(old(self).data(), old(self).offset(), len as nat).0 is None,
            },
    {
        proof {
            use_type_invariant(&*self);
        }
        let remaining = self.data.len() - self.o;
        if len > remaining {
            return None;
        }
        let extra = (4 - len % 4) % 4;
        if remaining - len < extra {
            return None;
        }
        let raw = slice_subrange(self.data, self.o, self.o + len);
        self.o = self.o + len + extra;
        Some(raw)
    }

    pub fn string(&mut self) -> (r: Option<String>)
        ensures
            final(self).data() == old(self).data(),
            final(self).offset() == read_string(old(self).data(), old(self).offset()).1,
            match r {
                Some(s) => read_string(old(self).data(), old(self).offset()).0 == Some(s@),
                None => read_string(old(self).data(), old(self).offset()).0 is None,
            },
    {
        let len = match self.uint() {
            Some(len) => len as usize,
            None => return None,
        };
        let raw = match self.bytes(len) {
            Some(raw) => raw,
            None => return None,
        };
        if len == 0 {
            return None;
        }
        let text = slice_subrange(raw, 0, len - 1);
        assert(text@ == raw@.take(len - 1));
        match utf8(text) {
            Some(s) => {
                proof {
                    encode_utf8_decode_utf8(s@);
                }
                Some(s.to_owned())
            },
            None => None,
        }
    }

    pub fn string_opt(&mut self) -> (r: Option<Option<String>>)
        ensures
            final(self).data() == old(self).data(),
            final(self).offset() == read_string_opt(old(self).data(), old(self).offset()).1,
            match r {
                Some(Some(s)) => read_string_opt(old(self).data(), old(self).offset()).0 == Some(
                    Some(s@),
                ),
                Some(None) => read_string_opt(old(self).data(), old(self).offset()).0 == Some(
                    None::<Seq<char>>,
                ),
                None => read_string_opt(old(self).data(), old(self).offset()).0 is None,
            },
    {
        let len = match self.uint() {
            Some(len) => len as usize,
            None => return None,
        };
        if len == 0 {
            return Some(None);
        }
        let raw = match self.bytes(len) {
            Some(raw) => raw,
            None => return None,
        };
        let text = slice_subrange(raw, 0, len - 1);
        assert(text@ == raw@.take(len - 1));
        match utf8(text) {
            Some(s) => {
                proof {
                    encode_utf8_decode_utf8(s@);
                }
                Some(Some(s.to_owned()))
            },
            None => None,
        }
    }

    pub fn array(&mut self) -> (r: Option<Vec<u8>>)
        ensures
            final(self).data() == old(self).data(),
            final(self).offset() == read_array(old(self).data(), old(self).offset()).1,
            match r {
                Some(a) => read_array(old(self).data(), old(self).offset()).0 == Some(a@),
                None => read_array(old(self).data(), old(self).offset()).0 is None,
            },
    {
        let len = match self.uint() {
            Some(len) => len as usize,
            None => return None,
        };
        match self.bytes(len) {
            Some(raw) => Some(copy_bytes(raw)),
            None => None,
        }
    }
}

// ---------------------------------------------------------------------------
// Writing
// ---------------------------------------------------------------------------

/// `n` zero bytes.
pub open spec fn zeros(n: nat) -> Seq<u8> {
    Seq::new(n, |i: int| 0u8)
}

/// A length as its word: the low 32 bits.
pub open spec fn len_word(n: nat) -> u32 {
    (n % 0x1_0000_0000) as u32
}

/// The wire form of a string: its length counting a terminating nul, its
/// UTF-8 bytes, the nul, and zeros up to a whole word.
pub open spec fn string_bytes(s: Seq<char>) -> Seq<u8> {
    let b = encode_utf8(s);
    word_bytes(len_word(b.len() + 1)) + b + seq![0u8] + zeros((3 - b.len() % 4) as nat)
}

/// The wire form of an array: its length, its bytes, and zeros up to a
/// whole word.
pub open spec fn array_bytes(a: Seq<u8>) -> Seq<u8> {
    word_bytes(len_word(a.len())) + a + zeros(((4 - a.len() % 4) % 4) as nat)
}

/// Appends one message to a buffer. The arguments collect in the body;
/// [`Writer::finish`] writes the header, now that the size is known, and
/// the body after it, and hands the buffer back.
pub struct Writer {
    buf: Vec<u8>,
    sender: u32,
    opcode: u16,
    body: Vec<u8>,
}

impl Writer {
    /// What the buffer held before this message.
    pub closed spec fn prefix(self) -> Seq<u8> {
        self.buf@
    }

    pub closed spec fn sender(self) -> u32 {
        self.sender
    }

    pub closed spec fn opcode(self) -> u16 {
        self.opcode
    }

    /// The arguments written so far.
    pub closed spec fn body(self) -> Seq<u8> {
        self.body@
    }

    fn push_word(&mut self, v: u32)
        ensures
            final(self).prefix() == old(self).prefix(),
            final(self).sender() == old(self).sender(),
            final(self).opcode() == old(self).opcode(),
            final(self).body() == old(self).body() + word_bytes(v),
    {
        proof {
            lemma_auto_words();
        }
        let mut w = ne_bytes(v);
        self.body.append(&mut w);
    }

    fn push_bytes(&mut self, bytes: &[u8])
        ensures
            final(self).prefix() == old(self).prefix(),
            final(self).sender() == old(self).sender(),
            final(self).opcode() == old(self).opcode(),
            final(self).body() == old(self).body() + bytes@,
    {
        let mut b = copy_bytes(bytes);
        self.body.append(&mut b);
    }

    fn push_zeros(&mut self, n: usize)
        ensures
            final(self).prefix() == old(self).prefix(),
            final(self).sender() == old(self).sender(),
            final(self).opcode() == old(self).opcode(),
            final(self).body() == old(self).body() + zeros(n as nat),
    {
        let mut i: usize = 0;
        while i < n
            invariant
                i <= n,
                self.prefix() == old(self).prefix(),
                self.sender() == old(self).sender(),
                self.opcode() == old(self).opcode(),
                self.body() == old(self).body() + zeros(i as nat),
            decreases n - i,
        {
            self.body.push(0);
            i = i + 1;
            assert(self.body@ =~= old(self).body() + zeros(i as nat));
        }
    }

    /// Start a message from `sender` with `opcode` at the end of `buf`.
    pub fn begin(buf: Vec<u8>, sender: ObjectId, opcode: u16) -> (w: Writer)
        ensures
            w.prefix() == buf@,
            w.sender() == sender.0,
            w.opcode() == opcode,
            w.body() == Seq::<u8>::empty(),
    {
        Writer { buf, sender: sender.0, opcode, body: Vec::new() }
    }

    pub fn uint(&mut self, v: u32)
        ensures
            final(self).body().len() % 4 == old(self).body().len() % 4,
            final(self).prefix() == old(self).prefix(),
            final(self).sender() == old(self).sender(),
            final(self).opcode() == old(self).opcode(),
            final(self).body() == old(self).body() + word_bytes(v),
    {
        proof {
            lemma_arg_whole_words(WireArg::Uint(v));
        }
        self.push_word(v);
    }

    pub fn signed(&mut self, v: i32)
        ensures
            final(self).body().len() % 4 == old(self).body().len() % 4,
            final(self).prefix() == old(self).prefix(),
            final(self).sender() == old(self).sender(),
            final(self).opcode() == old(self).opcode(),
            final(self).body() == old(self).body() + word_bytes(v as u32),
    {
        proof {
            lemma_arg_whole_words(WireArg::Int(v));
        }
        self.push_word(v as u32);
    }

    pub fn object(&mut self, id: ObjectId)
        ensures
            final(self).body().len() % 4 == old(self).body().len() % 4,
            final(self).prefix() == old(self).prefix(),
            final(self).sender() == old(self).sender(),
            final(self).opcode() == old(self).opcode(),
            final(self).body() == old(self).body() + word_bytes(id.0),
    {
        proof {
            lemma_arg_whole_words(WireArg::Uint(id.0));
        }
        self.push_word(id.0);
    }

    /// A nullable object: the null object is written as zero.
    pub fn object_opt(&mut self, id: Option<ObjectId>)
        ensures
            final(self).body().len() % 4 == old(self).body().len() % 4,
            final(self).prefix() == old(self).prefix(),
            final(self).sender() == old(self).sender(),
            final(self).opcode() == old(self).opcode(),
            final(self).body() == old(self).body() + word_bytes(
                match id {
                    Some(i) => i.0,
                    None => 0,
                },
            ),
    {
        proof {
            lemma_arg_whole_words(WireArg::Uint(match id { Some(i) => i.0, None => 0 }));
        }
        let v = match id {
            Some(i) => i.0,
            None => 0,
        };
        self.push_word(v);
    }

    pub fn new_id(&mut self, id: ObjectId)
        ensures
            final(self).body().len() % 4 == old(self).body().len() % 4,
            final(self).prefix() == old(self).prefix(),
            final(self).sender() == old(self).sender(),
            final(self).opcode() == old(self).opcode(),
            final(self).body() == old(self).body() + word_bytes(id.0),
    {
        proof {
            lemma_arg_whole_words(WireArg::Uint(id.0));
        }
        self.push_word(id.0);
    }

    /// Length including the nul, the bytes, the nul, padding to a word.
    #[verifier::spinoff_prover]
    #[verifier::rlimit(40)]
    pub fn string(&mut self, s: &str)
        ensures
            final(self).body().len() % 4 == old(self).body().len() % 4,
            final(self).prefix() == old(self).prefix(),
            final(self).sender() == old(self).sender(),
            final(self).opcode() == old(self).opcode(),
            final(self).body() == old(self).body() + string_bytes(s@),
    {
        proof {
            lemma_arg_whole_words(WireArg::Str(s@));
        }
        let bytes = s.as_bytes();
        let n = bytes.len();
        let len = ((n as u64 % 0x1_0000_0000) as u32).wrapping_add(1);
        assert(len == len_word(encode_utf8(s@).len() + 1));
        self.push_word(len);
        self.push_bytes(bytes);
        let mut nul: Vec<u8> = Vec::new();
        nul.push(0);
        self.push_bytes(nul.as_slice());
        self.push_zeros(3 - n % 4);
        assert(self.body() =~= old(self).body() + string_bytes(s@));
    }

    /// A nullable string: the null string is written as a zero length.
    pub fn string_opt(&mut self, s: Option<&str>)
        ensures
            final(self).body().len() % 4 == old(self).body().len() % 4,
            final(self).prefix() == old(self).prefix(),
            final(self).sender() == old(self).sender(),
            final(self).opcode() == old(self).opcode(),
            final(self).body() == old(self).body() + match s {
                Some(s) => string_bytes(s@),
                None => word_bytes(0),
            },
    {
        proof {
            lemma_arg_whole_words(WireArg::StrOpt(match s { Some(t) => Some(t@), None => None }));
        }
        match s {
            Some(s) => self.string(s),
            None => self.push_word(0),
        }
    }

    pub fn array(&mut self, a: &[u8])
        ensures
            final(self).body().len() % 4 == old(self).body().len() % 4,
            final(self).prefix() == old(self).prefix(),
            final(self).sender() == old(self).sender(),
            final(self).opcode() == old(self).opcode(),
            final(self).body() == old(self).body() + array_bytes(a@),
    {
        proof {
            lemma_arg_whole_words(WireArg::Array(a@));
        }
        let n = a.len();
        self.push_word((n as u64 % 0x1_0000_0000) as u32);
        self.push_bytes(a);
        self.push_zeros((4 - n % 4) % 4);
        assert(self.body() =~= old(self).body() + array_bytes(a@));
    }

    /// Write the header, whose size is now known, and the body, and hand
    /// the buffer back: what it held before, then the whole message.
    pub fn finish(self) -> (buf: Vec<u8>)
        ensures
            buf@ == self.prefix() + message(self.sender(), self.opcode(), self.body()),
            buf@.len() == self.prefix().len() + 8 + self.body().len(),
    {
        proof {
            lemma_auto_words();
            lemma_header_of_message(self.sender(), self.opcode(), self.body(), Seq::empty());
        }
        let Writer { buf, sender, opcode, body } = self;
        let mut buf = buf;
        let mut body = body;
        let n = body.len();
        let size = (n as u64 % 0x10000 + 8) % 0x10000;
        let word = (size as u32) * 0x10000 + opcode as u32;
        assert(size == (8 + n) % 0x10000);
        assert(word == size_word((8 + n) as nat, opcode));
        let ghost before = buf@;
        let ghost b = body@;
        let mut s = ne_bytes(sender);
        buf.append(&mut s);
        let mut w = ne_bytes(word);
        buf.append(&mut w);
        buf.append(&mut body);
        assert(buf@ =~= before + message(sender, opcode, b));
        buf
    }
}

/// Every argument's wire form is whole words.
pub proof fn lemma_arg_whole_words(a: WireArg)
    ensures
        encode_arg(a).len() % 4 == 0,
{
    lemma_auto_words();
    assert(word_bytes(0).len() == 4);
    match a {
        WireArg::Uint(v) => assert(word_bytes(v).len() == 4),
        WireArg::Int(v) => assert(word_bytes(v as u32).len() == 4),
        WireArg::Str(t) => lemma_string_whole_words(t),
        WireArg::StrOpt(Some(t)) => lemma_string_whole_words(t),
        WireArg::StrOpt(None) => {},
        WireArg::Array(b) => {
            assert(word_bytes(len_word(b.len())).len() == 4);
            let n = b.len();
            assert((4 + n + (4 - n % 4) % 4) % 4 == 0);
        },
    }
}

proof fn lemma_string_whole_words(t: Seq<char>)
    ensures
        string_bytes(t).len() % 4 == 0,
{
    lemma_auto_words();
    let n = encode_utf8(t).len();
    assert(word_bytes(len_word(n + 1)).len() == 4);
    assert((4 + n + 1 + (3 - n % 4)) % 4 == 0);
}

/// A body of whole arguments is whole words.
pub proof fn lemma_args_whole_words(args: Seq<WireArg>)
    ensures
        encode_args(args).len() % 4 == 0,
    decreases args.len(),
{
    if args.len() > 0 {
        lemma_arg_whole_words(args[0]);
        lemma_args_whole_words(args.drop_first());
    }
}

/// A finished message is whole 32-bit words, and reads back as it was
/// begun: its header names its sender and opcode and, while the message
/// fits in 16 bits, its own length as its size.
pub proof fn law_a_finished_message_is_whole_words(
    sender: u32,
    opcode: u16,
    args: Seq<WireArg>,
    rest: Seq<u8>,
)
    ensures
        message(sender, opcode, encode_args(args)).len() % 4 == 0,
        message(sender, opcode, encode_args(args)).len() < 0x10000 ==> spec_header(
            message(sender, opcode, encode_args(args)) + rest,
        ) == Some(
            Header {
                sender: ObjectId(sender),
                opcode,
                size: message(sender, opcode, encode_args(args)).len() as usize,
            },
        ),
{
    lemma_args_whole_words(args);
    lemma_header_of_message(sender, opcode, encode_args(args), rest);
}

// ---------------------------------------------------------------------------
// What a read gives back of a write
// ---------------------------------------------------------------------------

/// A word reads back where it was written.
pub proof fn lemma_read_uint_of_word(v: u32, prefix: Seq<u8>, rest: Seq<u8>)
    ensures
        read_uint(prefix + word_bytes(v) + rest, prefix.len() as int) == (
            Some(v),
            prefix.len() + 4int,
        ),
{
    lemma_word_round_trip(v, prefix, rest);
}

/// A string reads back where it was written, while its length and nul
/// fit in the length word.
pub proof fn lemma_read_string_of_string(s: Seq<char>, prefix: Seq<u8>, rest: Seq<u8>)
    requires
        encode_utf8(s).len() + 1 < 0x1_0000_0000,
    ensures
        read_string(prefix + string_bytes(s) + rest, prefix.len() as int) == (
            Some(s),
            (prefix.len() + string_bytes(s).len()) as int,
        ),
{
    lemma_auto_words();
    let b = encode_utf8(s);
    let n = b.len();
    let p = prefix.len() as int;
    let tail = b + seq![0u8] + zeros((3 - n % 4) as nat);
    let data = prefix + string_bytes(s) + rest;
    assert(string_bytes(s) =~= word_bytes(len_word(n + 1)) + tail);
    assert(data =~= prefix + word_bytes(len_word(n + 1)) + (tail + rest));
    lemma_read_uint_of_word(len_word(n + 1), prefix, tail + rest);
    assert(len_word(n + 1) == n + 1);
    assert(pad4((n + 1) as nat) == n + 1 + (3 - n % 4));
    let raw = data.subrange(p + 4, p + 4 + n + 1);
    assert(raw =~= b + seq![0u8]);
    assert(raw.take(n as int) =~= b);
    encode_utf8_valid_utf8(s);
    encode_utf8_decode_utf8(s);
}

/// A nullable string reads back where it was written.
pub proof fn lemma_read_string_opt_of_string_opt(s: Option<Seq<char>>, prefix: Seq<u8>, rest: Seq<u8>)
    requires
        s matches Some(t) ==> encode_utf8(t).len() + 1 < 0x1_0000_0000,
    ensures
        ({
            let w = match s {
                Some(t) => string_bytes(t),
                None => word_bytes(0),
            };
            read_string_opt(prefix + w + rest, prefix.len() as int) == (Some(s), (prefix.len() + w.len()) as int)
        }),
{
    match s {
        Some(t) => {
            lemma_read_string_of_string(t, prefix, rest);
            let b = encode_utf8(t);
            let n = b.len();
            let tail = b + seq![0u8] + zeros((3 - n % 4) as nat);
            assert(string_bytes(t) =~= word_bytes(len_word(n + 1)) + tail);
            assert(prefix + string_bytes(t) + rest =~= prefix + word_bytes(len_word(n + 1)) + (tail
                + rest));
            lemma_read_uint_of_word(len_word(n + 1), prefix, tail + rest);
        },
        None => {
            lemma_read_uint_of_word(0, prefix, rest);
            lemma_word_round_trip(0, prefix, rest);
        },
    }
}

/// An array reads back where it was written, while its length fits in
/// the length word.
pub proof fn lemma_read_array_of_array(a: Seq<u8>, prefix: Seq<u8>, rest: Seq<u8>)
    requires
        a.len() < 0x1_0000_0000,
    ensures
        read_array(prefix + array_bytes(a) + rest, prefix.len() as int) == (
            Some(a),
            (prefix.len() + array_bytes(a).len()) as int,
        ),
{
    lemma_auto_words();
    let n = a.len();
    let p = prefix.len() as int;
    let tail = a + zeros(((4 - n % 4) % 4) as nat);
    let data = prefix + array_bytes(a) + rest;
    assert(array_bytes(a) =~= word_bytes(len_word(n)) + tail);
    assert(data =~= prefix + word_bytes(len_word(n)) + (tail + rest));
    lemma_read_uint_of_word(len_word(n), prefix, tail + rest);
    assert(len_word(n) == n);
    assert(data.subrange(p + 4, p + 4 + n) =~= a);
}

/// One argument of a message, as the decoder sees it.
pub enum WireArg {
    /// A `uint`, an `object` or a `new_id`.
    Uint(u32),
    Int(i32),
    Str(Seq<char>),
    StrOpt(Option<Seq<char>>),
    Array(Seq<u8>),
}

/// The wire form of one argument, as the writer writes it.
pub open spec fn encode_arg(a: WireArg) -> Seq<u8> {
    match a {
        WireArg::Uint(v) => word_bytes(v),
        WireArg::Int(v) => word_bytes(v as u32),
        WireArg::Str(s) => string_bytes(s),
        WireArg::StrOpt(Some(s)) => string_bytes(s),
        WireArg::StrOpt(None) => word_bytes(0),
        WireArg::Array(a) => array_bytes(a),
    }
}

/// The body of a message with these arguments, in order.
pub open spec fn encode_args(args: Seq<WireArg>) -> Seq<u8>
    decreases args.len(),
{
    if args.len() == 0 {
        Seq::empty()
    } else {
        encode_arg(args[0]) + encode_args(args.drop_first())
    }
}

/// An argument the writer can write without truncating a length.
pub open spec fn arg_fits(a: WireArg) -> bool {
    match a {
        WireArg::Str(s) => encode_utf8(s).len() + 1 < 0x1_0000_0000,
        WireArg::StrOpt(Some(s)) => encode_utf8(s).len() + 1 < 0x1_0000_0000,
        WireArg::Array(a) => a.len() < 0x1_0000_0000,
        _ => true,
    }
}

/// Read one argument of the same kind as `like` at `o`.
pub open spec fn read_arg(data: Seq<u8>, o: int, like: WireArg) -> (Option<WireArg>, int) {
    match like {
        WireArg::Uint(_) => {
            let (v, o1) = read_uint(data, o);
            (
                match v {
                    Some(v) => Some(WireArg::Uint(v)),
                    None => None,
                },
                o1,
            )
        },
        WireArg::Int(_) => {
            let (v, o1) = read_uint(data, o);
            (
                match v {
                    Some(v) => Some(WireArg::Int(as_int(v))),
                    None => None,
                },
                o1,
            )
        },
        WireArg::Str(_) => {
            let (v, o1) = read_string(data, o);
            (
                match v {
                    Some(v) => Some(WireArg::Str(v)),
                    None => None,
                },
                o1,
            )
        },
        WireArg::StrOpt(_) => {
            let (v, o1) = read_string_opt(data, o);
            (
                match v {
                    Some(v) => Some(WireArg::StrOpt(v)),
                    None => None,
                },
                o1,
            )
        },
        WireArg::Array(_) => {
            let (v, o1) = read_array(data, o);
            (
                match v {
                    Some(v) => Some(WireArg::Array(v)),
                    None => None,
                },
                o1,
            )
        },
    }
}

/// Read, in order from `o`, one argument of each kind in `kinds`; `None`
/// as soon as one read fails.
pub open spec fn read_args(data: Seq<u8>, o: int, kinds: Seq<WireArg>) -> Option<Seq<WireArg>>
    decreases kinds.len(),
{
    if kinds.len() == 0 {
        Some(Seq::empty())
    } else {
        let (a, o1) = read_arg(data, o, kinds[0]);
        match a {
            None => None,
            Some(a) => match read_args(data, o1, kinds.drop_first()) {
                None => None,
                Some(more) => Some(seq![a] + more),
            },
        }
    }
}

/// One argument reads back where it was written.
pub proof fn lemma_read_arg_of_arg(a: WireArg, prefix: Seq<u8>, rest: Seq<u8>)
    requires
        arg_fits(a),
    ensures
        read_arg(prefix + encode_arg(a) + rest, prefix.len() as int, a) == (
            Some(a),
            (prefix.len() + encode_arg(a).len()) as int,
        ),
{
    lemma_auto_words();
    match a {
        WireArg::Uint(v) => lemma_read_uint_of_word(v, prefix, rest),
        WireArg::Int(v) => {
            lemma_read_uint_of_word(v as u32, prefix, rest);
            assert((v as u32) as i32 == v) by (bit_vector);
        },
        WireArg::Str(s) => lemma_read_string_of_string(s, prefix, rest),
        WireArg::StrOpt(s) => lemma_read_string_opt_of_string_opt(s, prefix, rest),
        WireArg::Array(b) => lemma_read_array_of_array(b, prefix, rest),
    }
}

/// Every argument of a message reads back, in order, where the writer put
/// it: decoding a body with the kinds it was written with gives back the
/// arguments, whatever came before or follows it.
pub proof fn lemma_read_args_of_args(args: Seq<WireArg>, prefix: Seq<u8>, rest: Seq<u8>)
    requires
        forall|i: int| 0 <= i < args.len() ==> arg_fits(#[trigger] args[i]),
    ensures
        read_args(prefix + encode_args(args) + rest, prefix.len() as int, args) == Some(args),
    decreases args.len(),
{
    if args.len() > 0 {
        let a = args[0];
        let more = args.drop_first();
        let data = prefix + encode_args(args) + rest;
        assert(data =~= prefix + encode_arg(a) + (encode_args(more) + rest));
        lemma_read_arg_of_arg(a, prefix, encode_args(more) + rest);
        assert(data =~= (prefix + encode_arg(a)) + encode_args(more) + rest);
        assert forall|i: int| 0 <= i < more.len() implies arg_fits(#[trigger] more[i]) by {
            assert(more[i] == args[i + 1]);
        }
        lemma_read_args_of_args(more, prefix + encode_arg(a), rest);
        assert(seq![a] + more =~= args);
    }
}

// ---------------------------------------------------------------------------
// Framing a stream of messages
// ---------------------------------------------------------------------------

/// Frames as [`walk_messages`] gives them: each header with its offset.
pub open spec fn frames_view(frames: Seq<(Header, usize)>) -> Seq<(Header, nat)> {
    frames.map_values(|f: (Header, usize)| (f.0, f.1 as nat))
}

/// The whole messages at the start of `bytes` from `o`, in order, each
/// header with the offset it starts at, and the offset after the last
/// one. A header that does not fit, or a message that has not fully
/// arrived, ends the walk there. `None` if a header claims a size shorter
/// than itself.
pub open spec fn walk_messages(bytes: Seq<u8>, o: nat) -> Option<(Seq<(Header, nat)>, nat)>
    decreases bytes.len() - o,
{
    if o > bytes.len() {
        Some((Seq::empty(), o))
    } else {
        match spec_header(bytes.skip(o as int)) {
            None => Some((Seq::empty(), o)),
            Some(h) => if h.size < 8 {
                None
            } else if o + h.size > bytes.len() {
                Some((Seq::empty(), o))
            } else {
                match walk_messages(bytes, (o + h.size) as nat) {
                    None => None,
                    Some((more, end)) => Some((seq![(h, o)] + more, end)),
                }
            },
        }
    }
}

/// Every header the walk over `bytes` meets claims at least its own eight
/// bytes.
pub open spec fn framed(bytes: Seq<u8>) -> bool {
    walk_messages(bytes, 0) is Some
}

/// Every whole message at the start of `bytes`, in order, each header
/// with the offset it starts at, and how many bytes they take; the rest is
/// the start of a message still arriving. `None` if a header claims a size
/// shorter than itself.
pub fn split_messages(bytes: &[u8]) -> (r: Option<(Vec<(Header, usize)>, usize)>)
    ensures
        match r {
            Some((frames, consumed)) => walk_messages(bytes@, 0) == Some(
                (frames_view(frames@), consumed as nat),
            ),
            None => walk_messages(bytes@, 0) is None,
        },
{
    let mut frames: Vec<(Header, usize)> = Vec::new();
    let mut o: usize = 0;
    loop
        invariant
            o <= bytes@.len(),
            walk_messages(bytes@, 0) == match walk_messages(bytes@, o as nat) {
                None => None,
                Some((more, end)) => Some(
                    (frames_view(frames@) + more, end),
                ),
            },
        decreases bytes@.len() - o,
    {
        let rest = slice_subrange(bytes, o, bytes.len());
        assert(rest@ == bytes@.skip(o as int));
        let h = match header(rest) {
            Some(h) => h,
            None => {
                assert(frames_view(frames@) + Seq::empty()
                    =~= frames_view(frames@));
                return Some((frames, o));
            },
        };
        if h.size < HEADER {
            return None;
        }
        if h.size > bytes.len() - o {
            assert(frames_view(frames@) + Seq::empty()
                =~= frames_view(frames@));
            return Some((frames, o));
        }
        let ghost before = frames@;
        frames.push((h, o));
        proof {
            let m = |f: (Header, usize)| (f.0, f.1 as nat);
            assert(frames@.map_values(m) =~= before.map_values(m) + seq![(h, o as nat)]);
            match walk_messages(bytes@, (o + h.size) as nat) {
                None => {},
                Some((more, end)) => {
                    assert(before.map_values(m) + (seq![(h, o as nat)] + more) =~= frames@.map_values(m)
                        + more);
                },
            }
        }
        o = o + h.size;
    }
}


/// Every message a walk frames lies whole within the bytes, after where
/// the walk started, with the header found at its offset.
pub proof fn lemma_walk_frames_in_bounds(bytes: Seq<u8>, o: nat)
    requires
        o <= bytes.len(),
    ensures
        walk_messages(bytes, o) matches Some((frames, end)) ==> {
            &&& o <= end <= bytes.len()
            &&& forall|i: int|
                0 <= i < frames.len() ==> {
                    let (h, at) = #[trigger] frames[i];
                    &&& o <= at
                    &&& 8 <= h.size
                    &&& at + h.size <= end
                    &&& spec_header(bytes.skip(at as int)) == Some(h)
                }
        },
    decreases bytes.len() - o,
{
    match spec_header(bytes.skip(o as int)) {
        None => {},
        Some(h) => {
            if h.size >= 8 && o + h.size <= bytes.len() {
                lemma_walk_frames_in_bounds(bytes, (o + h.size) as nat);
            }
        },
    }
}

/// Whole messages followed by the start of one more are framed as those
/// messages, in order and at their offsets; the start of the next is left
/// for a later read, however little or much of it has arrived.
pub proof fn lemma_split_whole_messages(
    before: Seq<u8>,
    msgs: Seq<(u32, u16, Seq<u8>)>,
    next: (u32, u16, Seq<u8>),
    arrived: nat,
)
    requires
        forall|i: int| 0 <= i < msgs.len() ==> 8 + (#[trigger] msgs[i]).2.len() < 0x10000,
        8 + next.2.len() < 0x10000,
        arrived < 8 + next.2.len(),
    ensures
        walk_messages(
            before + all_messages(msgs) + message(next.0, next.1, next.2).take(arrived as int),
            before.len(),
        ) == Some((headers_at(msgs, before.len()), before.len() + all_messages(msgs).len())),
    decreases msgs.len(),
{
    let partial = message(next.0, next.1, next.2).take(arrived as int);
    let data = before + all_messages(msgs) + partial;
    lemma_header_of_message(next.0, next.1, next.2, Seq::empty());
    assert(message(next.0, next.1, next.2) + Seq::<u8>::empty() =~= message(next.0, next.1, next.2));
    if msgs.len() == 0 {
        assert(data.skip(before.len() as int) =~= partial);
        if arrived >= 8 {
            lemma_header_of_message(next.0, next.1, next.2, Seq::empty());
            assert(partial.subrange(0, 4) =~= message(next.0, next.1, next.2).subrange(0, 4));
            assert(partial.subrange(4, 8) =~= message(next.0, next.1, next.2).subrange(4, 8));
        }
    } else {
        let m = msgs[0];
        let more = msgs.drop_first();
        assert forall|i: int| 0 <= i < more.len() implies 8 + (#[trigger] more[i]).2.len()
            < 0x10000 by {
            assert(more[i] == msgs[i + 1]);
        }
        let first = message(m.0, m.1, m.2);
        lemma_header_of_message(m.0, m.1, m.2, all_messages(more) + partial);
        assert(all_messages(msgs) =~= first + all_messages(more));
        assert(data.skip(before.len() as int) =~= first + (all_messages(more) + partial));
        assert(data =~= (before + first) + all_messages(more) + partial);
        lemma_split_whole_messages(before + first, more, next, arrived);
        let h = Header { sender: ObjectId(m.0), opcode: m.1, size: ((8 + m.2.len()) % 0x10000) as usize };
        assert(headers_at(msgs, before.len()) =~= seq![(h, before.len())] + headers_at(
            more,
            (before.len() + first.len()) as nat,
        ));
    }
}

/// The messages, one after another.
pub open spec fn all_messages(msgs: Seq<(u32, u16, Seq<u8>)>) -> Seq<u8>
    decreases msgs.len(),
{
    if msgs.len() == 0 {
        Seq::empty()
    } else {
        message(msgs[0].0, msgs[0].1, msgs[0].2) + all_messages(msgs.drop_first())
    }
}

/// The headers of the messages, each with its offset when the first
/// starts at `o`.
pub open spec fn headers_at(msgs: Seq<(u32, u16, Seq<u8>)>, o: nat) -> Seq<(Header, nat)>
    decreases msgs.len(),
{
    if msgs.len() == 0 {
        Seq::empty()
    } else {
        let m = msgs[0];
        let size = 8 + m.2.len();
        seq![(Header { sender: ObjectId(m.0), opcode: m.1, size: (size % 0x10000) as usize }, o)]
            + headers_at(msgs.drop_first(), o + size)
    }
}

} // verus!
