use vstd::prelude::*;
use vstd::utf8::{decode_utf8, encode_utf8, valid_utf8};

use crate::error::InletError;

verus! {

broadcast use vstd::array::group_array_axioms;

/// Number of bytes held by a fixed-capacity identifier.
pub const ARRAY_STRING_SIZE: usize = 128;

/// A 128-byte, NUL-padded identifier used to name topics and consumers.
pub struct ArrayString {
    pub bytes: [u8; 128],
}

/// `n` zero bytes.
pub open spec fn zeros(n: nat) -> Seq<u8> {
    Seq::new(n, |i: int| 0u8)
}

/// The 128-byte image of `b`: its bytes followed by zeros.
pub open spec fn padded(b: Seq<u8>) -> Seq<u8> {
    b + zeros((128 - b.len()) as nat)
}

/// Number of bytes before the first zero byte (or the whole length).
pub open spec fn text_len(s: Seq<u8>) -> nat
    decreases s.len(),
{
    if s.len() == 0 || s[0] == 0 {
        0
    } else {
        1 + text_len(s.drop_first())
    }
}

/// The bytes of `s` up to, not including, its first zero byte.
pub open spec fn text_of(s: Seq<u8>) -> Seq<u8> {
    s.subrange(0, text_len(s) as int)
}

/// The text of `s`: its bytes before the first zero decoded as UTF-8, or
/// the empty text when they are not valid UTF-8.
pub open spec fn decoded_text(s: Seq<u8>) -> Seq<char> {
    if valid_utf8(text_of(s)) {
        decode_utf8(text_of(s))
    } else {
        Seq::empty()
    }
}

/// True iff no byte of `b` is zero.
pub open spec fn no_zero(b: Seq<u8>) -> bool {
    forall|j: int| 0 <= j < b.len() ==> b[j] != 0
}

/// The text length of `s` is the first `k` at which a zero byte or the end
/// is reached.
pub proof fn lemma_text_len(s: Seq<u8>, k: int)
    requires
        0 <= k <= s.len(),
        forall|j: int| 0 <= j < k ==> s[j] != 0,
        k == s.len() || s[k] == 0,
    ensures
        text_len(s) == k,
    decreases k,
{
    if k > 0 {
        lemma_text_len(s.drop_first(), k - 1);
    }
}

/// Converting a byte sequence of at most 128 bytes with no zero byte into an
/// identifier and reading its text back gives the same bytes.
pub proof fn lemma_round_trip(b: Seq<u8>)
    requires
        b.len() <= 128,
        no_zero(b),
    ensures
        text_of(padded(b)) == b,
{
    let p = padded(b);
    lemma_text_len(p, b.len() as int);
    assert(text_of(p) =~= b);
}

/// Storing a text whose UTF-8 encoding has at most 128 bytes, none of them
/// zero, and reading it back gives the same text.
pub proof fn lemma_text_round_trip(t: Seq<char>)
    requires
        encode_utf8(t).len() <= 128,
        no_zero(encode_utf8(t)),
    ensures
        valid_utf8(text_of(padded(encode_utf8(t)))),
        decoded_text(padded(encode_utf8(t))) == t,
{
    lemma_round_trip(encode_utf8(t));
    vstd::utf8::encode_utf8_valid_utf8(t);
    vstd::utf8::encode_utf8_decode_utf8(t);
}

/// Relies on std::str::from_utf8: it succeeds exactly on valid UTF-8 and
/// then holds the decoded text.
#[verifier::external_body]
fn decode_text(b: &[u8]) -> (r: Option<&str>)
    ensures
        r is Some <==> valid_utf8(b@),
        r matches Some(t) ==> t@ == decode_utf8(b@),
{
    std::str::from_utf8(b).ok()
}

/// Relies on String::push_str: the text is appended at the end.
#[verifier::external_body]
fn push_text(s: &mut String, t: &str)
    ensures
        final(s)@ == old(s)@ + t@,
{
    s.push_str(t)
}

/// Relies on String::push: the character is appended at the end.
#[verifier::external_body]
fn push_char(s: &mut String, c: char)
    ensures
        final(s)@ == old(s)@.push(c),
{
    s.push(c)
}

impl ArrayString {
    /// The bytes of the identifier.
    pub open spec fn view(&self) -> Seq<u8> {
        self.bytes@
    }

    /// The all-zero identifier.
    pub fn empty() -> (r: ArrayString)
        ensures
            r@ == zeros(128),
    {
        let r = ArrayString { bytes: [0u8; 128] };
        assert(r@ =~= zeros(128));
        r
    }

    /// True iff the first byte is zero.
    pub fn is_empty(&self) -> (r: bool)
        ensures
            r == (self@[0] == 0),
    {
        self.bytes[0] == 0
    }

    /// The identifier holding `b` followed by zeros, or `IdTooLong` when `b`
    /// has more than 128 bytes.
    pub fn from_bytes(b: &[u8]) -> (r: Result<ArrayString, InletError>)
        ensures
            b@.len() <= 128 ==> (r matches Ok(a) && a@ == padded(b@)),
            b@.len() > 128 ==> r == Err::<ArrayString, InletError>(InletError::IdTooLong),
    {
        if b.len() > ARRAY_STRING_SIZE {
            return Err(InletError::IdTooLong);
        }
        let mut bytes = [0u8; 128];
        let mut i: usize = 0;
        while i < b.len()
            invariant
                b@.len() <= 128,
                0 <= i <= b@.len(),
                bytes@.len() == 128,
                forall|j: int| 0 <= j < i ==> bytes@[j] == b@[j],
                forall|j: int| i <= j < 128 ==> bytes@[j] == 0,
            decreases b@.len() - i,
        {
            bytes[i] = b[i];
            i += 1;
        }
        let a = ArrayString { bytes };
        assert(a@ =~= padded(b@));
        Ok(a)
    }

    /// The identifier holding the UTF-8 bytes of `value` followed by zeros.
    pub fn from(value: String) -> (r: ArrayString)
        requires
            encode_utf8(value@).len() <= 128,
        ensures
            r@ == padded(encode_utf8(value@)),
    {
        let b = value.as_str().as_bytes();
        match ArrayString::from_bytes(b) {
            Ok(a) => a,
            Err(_) => ArrayString::empty(),
        }
    }

    /// The bytes before the first zero byte.
    pub fn to_bytes(&self) -> (r: Vec<u8>)
        ensures
            r@ == text_of(self@),
    {
        let mut r: Vec<u8> = Vec::new();
        let mut i: usize = 0;
        while i < 128 && self.bytes[i] != 0
            invariant
                0 <= i <= 128,
                self@.len() == 128,
                r@ == self@.subrange(0, i as int),
                forall|j: int| 0 <= j < i ==> self@[j] != 0,
            decreases 128 - i,
        {
            r.push(self.bytes[i]);
            i += 1;
        }
        proof {
            lemma_text_len(self@, i as int);
        }
        assert(r@ =~= text_of(self@));
        r
    }

    /// The bytes before the first zero byte decoded as UTF-8, the encoding
    /// identifiers are written in; the empty string when they are not valid
    /// UTF-8.
    pub fn to_string(&self) -> (r: String)
        ensures
            r@ == decoded_text(self@),
            valid_utf8(text_of(self@)) ==> r@ == decode_utf8(text_of(self@)),
            !valid_utf8(text_of(self@)) ==> r@ == Seq::<char>::empty(),
    {
        let bytes = self.to_bytes();
        match decode_text(bytes.as_slice()) {
            Some(t) => t.to_owned(),
            None => String::new(),
        }
    }

    /// The text of the identifier between double quotes.
    pub fn debug_string(&self) -> (r: String)
        ensures
            r@ == seq!['"'] + decoded_text(self@) + seq!['"'],
    {
        let mut r = String::new();
        push_char(&mut r, '"');
        let text = self.to_string();
        push_text(&mut r, text.as_str());
        push_char(&mut r, '"');
        assert(r@ =~= seq!['"'] + decoded_text(self@) + seq!['"']);
        r
    }

    /// Byte-wise equality over the whole array.
    pub fn equals(&self, other: &ArrayString) -> (r: bool)
        ensures
            r == (self@ == other@),
    {
        let mut i: usize = 0;
        while i < 128
            invariant
                0 <= i <= 128,
                self@.len() == 128,
                other@.len() == 128,
                forall|j: int| 0 <= j < i ==> self@[j] == other@[j],
            decreases 128 - i,
        {
            if self.bytes[i] != other.bytes[i] {
                return false;
            }
            i += 1;
        }
        assert(self@ =~= other@);
        true
    }
}

impl Clone for ArrayString {
    fn clone(&self) -> (r: ArrayString)
        ensures
            r@ == self@,
    {
        ArrayString { bytes: self.bytes }
    }
}

impl PartialEq for ArrayString {
    fn eq(&self, other: &ArrayString) -> (r: bool) {
        self.equals(other)
    }
}

impl vstd::std_specs::cmp::PartialEqSpecImpl for ArrayString {
    open spec fn obeys_eq_spec() -> bool {
        true
    }

    open spec fn eq_spec(&self, other: &ArrayString) -> bool {
        self@ == other@
    }
}

impl Eq for ArrayString {
}

} // verus!
