//! Encoding of values as the bytes that an instance's call interface takes.

use crate::little_endian::{
    i32_image, i64_image, le_digits, le_value, lemma_digits_len, lemma_signed_of_image,
    lemma_spans, lemma_value_of_digits, signed_value, u32_le, u64_le, unsigned_image,
};
use vstd::prelude::*;
use vstd::slice::slice_to_vec;
use vstd::utf8::encode_utf8;

verus! {

/// Why a value could not be encoded.
#[derive(Debug, PartialEq, Eq)]
pub struct Error {
    message: String,
}

impl Clone for Error {
    fn clone(&self) -> (e: Self)
        ensures
            e == *self,
    {
        Error { message: self.message.clone() }
    }
}

impl Error {
    /// An error that carries `message`.
    pub fn new(message: String) -> (e: Self)
        ensures
            e.message_view() == message@,
    {
        Error { message }
    }

    /// The text the error was made with.
    pub closed spec fn message_view(&self) -> Seq<char> {
        self.message@
    }

    /// The text the error was made with.
    pub fn message(&self) -> (m: &str)
        ensures
            m@ == self.message_view(),
    {
        self.message.as_str()
    }
}

/// A finished encoding: something that holds a run of bytes.
pub trait Encoded {
    /// The bytes held.
    spec fn byte_seq(&self) -> Seq<u8>;

    /// A fresh vector with the bytes held.
    fn to_byte_vec(&self) -> (v: Vec<u8>)
        ensures
            v@ == self.byte_seq(),
    ;
}

impl<const N: usize> Encoded for [u8; N] {
    open spec fn byte_seq(&self) -> Seq<u8> {
        self@
    }

    fn to_byte_vec(&self) -> (v: Vec<u8>) {
        let mut v: Vec<u8> = Vec::new();
        let mut i: usize = 0;
        while i < N
            invariant
                i <= N,
                v@ == self@.subrange(0, i as int),
            decreases N - i,
        {
            v.push(self[i]);
            i += 1;
        }
        v
    }
}

impl Encoded for Vec<u8> {
    open spec fn byte_seq(&self) -> Seq<u8> {
        self@
    }

    fn to_byte_vec(&self) -> (v: Vec<u8>) {
        self.clone()
    }
}

impl Encoded for String {
    open spec fn byte_seq(&self) -> Seq<u8> {
        encode_utf8(self@)
    }

    fn to_byte_vec(&self) -> (v: Vec<u8>) {
        slice_to_vec(self.as_str().as_bytes())
    }
}

impl<'a> Encoded for &'a [u8] {
    open spec fn byte_seq(&self) -> Seq<u8> {
        self@
    }

    fn to_byte_vec(&self) -> (v: Vec<u8>) {
        slice_to_vec(*self)
    }
}

impl<'a> Encoded for &'a str {
    open spec fn byte_seq(&self) -> Seq<u8> {
        encode_utf8(self@)
    }

    fn to_byte_vec(&self) -> (v: Vec<u8>) {
        slice_to_vec(self.as_bytes())
    }
}

/// What `encoded`, the outcome of an encoding, becomes when its bytes are
/// copied into a vector: the bytes on success, the same error on failure.
pub open spec fn collected<B: Encoded>(encoded: Result<B, Error>) -> Result<Seq<u8>, Error> {
    match encoded {
        Ok(b) => Ok(b.byte_seq()),
        Err(e) => Err(e),
    }
}

/// The bytes and errors of an outcome whose bytes are already in a vector.
pub open spec fn outcome_view(r: Result<Vec<u8>, Error>) -> Result<Seq<u8>, Error> {
    match r {
        Ok(v) => Ok(v@),
        Err(e) => Err(e),
    }
}

/// Copies the bytes of a successful encoding into a vector and hands a
/// failure on unchanged.
pub fn collect<B: Encoded>(encoded: Result<B, Error>) -> (r: Result<Vec<u8>, Error>)
    ensures
        outcome_view(r) == collected(encoded),
{
    match encoded {
        Ok(b) => Ok(b.to_byte_vec()),
        Err(e) => Err(e),
    }
}

/// How a value is encoded for an instance's call interface.
///
/// `encoding` is the model: the byte string that stands for the value. Both
/// methods may fail, and where they succeed they produce that byte string.
/// An implementation says of itself whether it keeps to the model
/// (`obeys_encoding`) and whether it ever fails (`always_encodes`); one that
/// says nothing promises nothing. The implementations in this module keep to
/// the model and never fail, those for `&T` and `Option<T>` as far as `T`
/// does.
///
/// A type that wants another type's encoding implements the trait by handing
/// itself to that type: `Wrapper(self).to_bytes()`.
pub trait ToBytes<'a> {
    /// What `to_bytes` hands out.
    type Bytes: Encoded;

    /// Whether `encoding` is the model of this implementation: what the
    /// methods produce when they succeed.
    open spec fn obeys_encoding() -> bool {
        false
    }

    /// Whether this implementation encodes every value: its methods never
    /// fail.
    open spec fn always_encodes() -> bool {
        false
    }

    /// The byte string that stands for the value.
    open spec fn encoding(&self) -> Seq<u8> {
        Seq::empty()
    }

    /// Encodes the value.
    fn to_bytes(&self) -> (r: Result<Self::Bytes, Error>)
        ensures
            Self::always_encodes() ==> r is Ok,
            Self::obeys_encoding() ==> (r matches Ok(b) ==> b.byte_seq() == self.encoding()),
    ;

    /// Encodes the value into a vector.
    fn to_vec(&self) -> (r: Result<Vec<u8>, Error>)
        ensures
            Self::always_encodes() ==> r is Ok,
            Self::obeys_encoding() ==> (r matches Ok(v) ==> v@ == self.encoding()),
    {
        collect(self.to_bytes())
    }
}

impl<'a> ToBytes<'a> for () {
    type Bytes = [u8; 0];

    open spec fn obeys_encoding() -> bool {
        true
    }

    open spec fn always_encodes() -> bool {
        true
    }

    open spec fn encoding(&self) -> Seq<u8> {
        Seq::empty()
    }

    fn to_bytes(&self) -> (r: Result<Self::Bytes, Error>) {
        let b: [u8; 0] = [];
        assert(b.byte_seq() =~= Seq::<u8>::empty());
        Ok(b)
    }
}

impl<'a> ToBytes<'a> for Vec<u8> {
    type Bytes = Vec<u8>;

    open spec fn obeys_encoding() -> bool {
        true
    }

    open spec fn always_encodes() -> bool {
        true
    }

    open spec fn encoding(&self) -> Seq<u8> {
        self@
    }

    fn to_bytes(&self) -> (r: Result<Self::Bytes, Error>) {
        let b = self.clone();
        assert(b.byte_seq() == self@);
        Ok(b)
    }

    fn to_vec(&self) -> (r: Result<Vec<u8>, Error>) {
        Ok(self.clone())
    }
}

impl<'a> ToBytes<'a> for String {
    type Bytes = String;

    open spec fn obeys_encoding() -> bool {
        true
    }

    open spec fn always_encodes() -> bool {
        true
    }

    open spec fn encoding(&self) -> Seq<u8> {
        encode_utf8(self@)
    }

    fn to_bytes(&self) -> (r: Result<Self::Bytes, Error>) {
        let b = self.clone();
        assert(b.byte_seq() == encode_utf8(self@));
        Ok(b)
    }

    fn to_vec(&self) -> (r: Result<Vec<u8>, Error>) {
        Ok(self.to_byte_vec())
    }
}

impl<'a> ToBytes<'a> for &'a [u8] {
    type Bytes = &'a [u8];

    open spec fn obeys_encoding() -> bool {
        true
    }

    open spec fn always_encodes() -> bool {
        true
    }

    open spec fn encoding(&self) -> Seq<u8> {
        self@
    }

    fn to_bytes(&self) -> (r: Result<Self::Bytes, Error>) {
        let b: &'a [u8] = *self;
        assert(b.byte_seq() == self@);
        Ok(b)
    }
}

impl<'a> ToBytes<'a> for &'a str {
    type Bytes = &'a str;

    open spec fn obeys_encoding() -> bool {
        true
    }

    open spec fn always_encodes() -> bool {
        true
    }

    open spec fn encoding(&self) -> Seq<u8> {
        encode_utf8(self@)
    }

    fn to_bytes(&self) -> (r: Result<Self::Bytes, Error>) {
        let b: &'a str = *self;
        assert(b.byte_seq() == encode_utf8(self@));
        Ok(b)
    }
}

impl<'a> ToBytes<'a> for i64 {
    type Bytes = [u8; 8];

    open spec fn obeys_encoding() -> bool {
        true
    }

    open spec fn always_encodes() -> bool {
        true
    }

    open spec fn encoding(&self) -> Seq<u8> {
        le_digits(unsigned_image(*self as int, 8), 8)
    }

    fn to_bytes(&self) -> (r: Result<Self::Bytes, Error>) {
        let b = u64_le(i64_image(*self));
        assert(b.byte_seq() == self.encoding());
        Ok(b)
    }
}

impl<'a> ToBytes<'a> for i32 {
    type Bytes = [u8; 4];

    open spec fn obeys_encoding() -> bool {
        true
    }

    open spec fn always_encodes() -> bool {
        true
    }

    open spec fn encoding(&self) -> Seq<u8> {
        le_digits(unsigned_image(*self as int, 4), 4)
    }

    fn to_bytes(&self) -> (r: Result<Self::Bytes, Error>) {
        let b = u32_le(i32_image(*self));
        assert(b.byte_seq() == self.encoding());
        Ok(b)
    }
}

impl<'a> ToBytes<'a> for u64 {
    type Bytes = [u8; 8];

    open spec fn obeys_encoding() -> bool {
        true
    }

    open spec fn always_encodes() -> bool {
        true
    }

    open spec fn encoding(&self) -> Seq<u8> {
        le_digits(*self as nat, 8)
    }

    fn to_bytes(&self) -> (r: Result<Self::Bytes, Error>) {
        let b = u64_le(*self);
        assert(b.byte_seq() == self.encoding());
        Ok(b)
    }
}

impl<'a> ToBytes<'a> for u32 {
    type Bytes = [u8; 4];

    open spec fn obeys_encoding() -> bool {
        true
    }

    open spec fn always_encodes() -> bool {
        true
    }

    open spec fn encoding(&self) -> Seq<u8> {
        le_digits(*self as nat, 4)
    }

    fn to_bytes(&self) -> (r: Result<Self::Bytes, Error>) {
        let b = u32_le(*self);
        assert(b.byte_seq() == self.encoding());
        Ok(b)
    }
}

impl<'a, T: ToBytes<'a>> ToBytes<'a> for &'a T {
    type Bytes = T::Bytes;

    open spec fn obeys_encoding() -> bool {
        T::obeys_encoding()
    }

    open spec fn always_encodes() -> bool {
        T::always_encodes()
    }

    open spec fn encoding(&self) -> Seq<u8> {
        (**self).encoding()
    }

    fn to_bytes(&self) -> (r: Result<Self::Bytes, Error>) {
        (**self).to_bytes()
    }

    fn to_vec(&self) -> (r: Result<Vec<u8>, Error>) {
        (**self).to_vec()
    }
}

impl<'a, T: ToBytes<'a>> ToBytes<'a> for Option<T> {
    type Bytes = Vec<u8>;

    open spec fn obeys_encoding() -> bool {
        T::obeys_encoding()
    }

    open spec fn always_encodes() -> bool {
        T::always_encodes()
    }

    open spec fn encoding(&self) -> Seq<u8> {
        match self {
            Some(x) => x.encoding(),
            None => Seq::empty(),
        }
    }

    fn to_bytes(&self) -> (r: Result<Self::Bytes, Error>)
        ensures
            self is None ==> r is Ok,
    {
        let r = match self {
            Some(x) => collect(x.to_bytes()),
            None => Ok(Vec::new()),
        };
        assert(r matches Ok(v) ==> v.byte_seq() == v@);
        r
    }

    fn to_vec(&self) -> (r: Result<Vec<u8>, Error>)
        ensures
            self is None ==> r is Ok,
    {
        match self {
            Some(x) => x.to_vec(),
            None => Ok(Vec::new()),
        }
    }
}

/// What a byte string stands for where an absent value is written as no
/// bytes at all: nothing if it is empty, and else what `decode` reads from it.
pub open spec fn decoded_optional<V>(bytes: Seq<u8>, decode: spec_fn(Seq<u8>) -> V) -> Option<V> {
    if bytes.len() == 0 {
        None
    } else {
        Some(decode(bytes))
    }
}

/// A `u32` is encoded in four bytes, and read back from them.
pub proof fn lemma_u32_round_trip(x: u32)
    ensures
        x.encoding().len() == 4,
        le_value(x.encoding()) == x,
{
    lemma_spans();
    lemma_digits_len(x as nat, 4);
    lemma_value_of_digits(x as nat, 4);
}

/// A `u64` is encoded in eight bytes, and read back from them.
pub proof fn lemma_u64_round_trip(x: u64)
    ensures
        x.encoding().len() == 8,
        le_value(x.encoding()) == x,
{
    lemma_spans();
    lemma_digits_len(x as nat, 8);
    lemma_value_of_digits(x as nat, 8);
}

/// An `i32` is encoded in four bytes, and read back from them.
pub proof fn lemma_i32_round_trip(x: i32)
    ensures
        x.encoding().len() == 4,
        signed_value(le_value(x.encoding()), 4) == x,
{
    lemma_spans();
    lemma_signed_of_image(x as int, 4);
    lemma_digits_len(unsigned_image(x as int, 4), 4);
    lemma_value_of_digits(unsigned_image(x as int, 4), 4);
}

/// An `i64` is encoded in eight bytes, and read back from them.
pub proof fn lemma_i64_round_trip(x: i64)
    ensures
        x.encoding().len() == 8,
        signed_value(le_value(x.encoding()), 8) == x,
{
    lemma_spans();
    lemma_signed_of_image(x as int, 8);
    lemma_digits_len(unsigned_image(x as int, 8), 8);
    lemma_value_of_digits(unsigned_image(x as int, 8), 8);
}

/// An optional value is read back from its encoding, absent or present, by
/// any `decode` that reads the present value back from its own encoding,
/// provided that this encoding is not empty: a present value that encodes to
/// no bytes is indistinguishable from an absent one.
pub proof fn lemma_optional_round_trip<'a, T: ToBytes<'a>>(
    value: Option<T>,
    decode: spec_fn(Seq<u8>) -> T,
)
    requires
        value matches Some(x) ==> x.encoding().len() > 0 && decode(x.encoding()) == x,
    ensures
        decoded_optional(value.encoding(), decode) == value,
{
}

} // verus!
