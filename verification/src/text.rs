//! Bounded text at the boundaries: the bytes that arrived, up to a cap,
//! compared byte for byte.
//!
//! Every comparison permitted on a text is byte equality: no case folding, no
//! trimming, no normalisation. So a text is an array and a length, checked as
//! UTF-8 once and trusted from then on, and a text past its cap is refused
//! rather than truncated: a label with its last letter missing is a different
//! label.

use vstd::prelude::*;
use vstd::utf8::{encode_utf8, encode_utf8_valid_utf8, valid_utf8};

use crate::body::Malformed;
use crate::bytes::{copy_at, spliced};

verus! {

/// What a text holds: a length, and the whole field behind it.
pub struct TextModel {
    /// How many bytes of the field are the text.
    pub len: u8,
    /// The field.
    pub field: Seq<u8>,
}

impl TextModel {
    /// The bytes that are the text.
    pub open spec fn bytes(self) -> Seq<u8> {
        self.field.take(self.len as int)
    }

    /// A length inside a field of `cap` bytes, and UTF-8 up to it.
    pub open spec fn sound(self, cap: nat) -> bool {
        &&& self.field.len() == cap
        &&& self.len <= cap
        &&& valid_utf8(self.bytes())
    }

    /// The length and then the whole field.
    pub open spec fn image(self) -> Seq<u8> {
        seq![self.len] + self.field
    }
}

/// The text `bytes` hold from offset `at` on, in a field of `cap` bytes: a
/// length past the cap is refused where it stands, and bytes that run out or
/// are not UTF-8 where the field starts.
pub open spec fn text_at(bytes: Seq<u8>, at: nat, cap: nat) -> Result<TextModel, Malformed> {
    if bytes.len() <= at {
        Err(Malformed { at: at as usize })
    } else if bytes[at as int] > cap {
        Err(Malformed { at: at as usize })
    } else if bytes.len() < at + 1 + cap {
        Err(Malformed { at: (at + 1) as usize })
    } else {
        let text = TextModel {
            len: bytes[at as int],
            field: bytes.subrange(at as int + 1, at + 1 + cap as int),
        };
        if valid_utf8(text.bytes()) {
            Ok(text)
        } else {
            Err(Malformed { at: (at + 1) as usize })
        }
    }
}

/// Up to `N` bytes of UTF-8, `N` at most 255 so the length is one byte on
/// the part.
#[derive(Debug, Clone, Copy, PartialEq, Eq)]
pub struct Text<const N: usize> {
    bytes: [u8; N],
    len: u8,
}

/// A text past its cap, carrying the length it had and the cap it hit.
#[derive(Debug, Clone, Copy, PartialEq, Eq, Structural)]
pub struct TooLong {
    /// The bytes the text had.
    pub len: usize,
    /// The bytes the field holds.
    pub cap: usize,
}

/// `core::str::from_utf8`: the string the bytes are, or nothing when they are
/// not UTF-8. Trusted: it succeeds exactly on UTF-8, and the string it gives
/// is made of the bytes it was handed.
#[verifier::external_body]
fn as_utf8(bytes: &[u8]) -> (r: Option<&str>)
    ensures
        r is Some <==> valid_utf8(bytes@),
        r matches Some(s) ==> encode_utf8(s@) == bytes@,
{
    core::str::from_utf8(bytes).ok()
}

impl<const N: usize> View for Text<N> {
    type V = TextModel;

    closed spec fn view(&self) -> TextModel {
        TextModel { len: self.len, field: self.bytes@ }
    }
}

impl<const N: usize> Text<N> {
    #[verifier::type_invariant]
    spec fn whole(self) -> bool {
        self@.sound(N as nat)
    }

    /// The bytes the field holds.
    pub fn capacity() -> (r: usize)
        ensures
            r == N,
    {
        N
    }

    /// The field is as long as its cap says.
    pub proof fn lemma_field_len(&self)
        ensures
            self@.field.len() == N,
    {
    }

    /// Nothing.
    pub fn empty() -> (r: Self)
        ensures
            r@.len == 0,
            r@.field == Seq::new(N as nat, |i: int| 0u8),
            r@.sound(N as nat),
    {
        let bytes = [0u8; N];
        proof {
            assert(bytes@.take(0) =~= Seq::<u8>::empty());
            assert(bytes@ =~= Seq::new(N as nat, |i: int| 0u8));
        }
        Text { bytes, len: 0 }
    }

    /// `text`, or a refusal past the cap.
    pub fn new(text: &str) -> (r: Result<Self, TooLong>)
        requires
            N <= 255,
        ensures
            r is Ok <==> encode_utf8(text@).len() <= N,
            r matches Ok(t) ==> {
                &&& t@.sound(N as nat)
                &&& t@.bytes() == encode_utf8(text@)
                &&& t@.field == spliced(Seq::new(N as nat, |i: int| 0u8), 0, encode_utf8(text@))
            },
            r matches Err(e) ==> e.cap == N && e.len == encode_utf8(text@).len(),
    {
        let given = text.as_bytes();
        if given.len() > N {
            return Err(TooLong { len: given.len(), cap: N });
        }
        let mut bytes = [0u8; N];
        proof {
            assert(bytes@ =~= Seq::new(N as nat, |i: int| 0u8));
        }
        copy_at(&mut bytes, 0, given);
        let len: u8 = given.len() as u8;
        proof {
            assert(bytes@.take(len as int) =~= given@);
            encode_utf8_valid_utf8(text@);
        }
        Ok(Text { bytes, len })
    }

    /// The bytes, exactly as many as there are.
    pub fn as_bytes(&self) -> (r: &[u8])
        ensures
            r@ == self@.bytes(),
    {
        proof {
            use_type_invariant(self);
        }
        let whole = self.bytes.as_slice();
        let r = &whole[0..self.len as usize];
        proof {
            assert(r@ =~= self@.bytes());
        }
        r
    }

    /// The text.
    pub fn as_str(&self) -> (r: &str)
        ensures
            encode_utf8(r@) == self@.bytes(),
    {
        proof {
            use_type_invariant(self);
        }
        match as_utf8(self.as_bytes()) {
            Some(text) => text,
            None => {
                proof {
                    assert(false);
                }
                ""
            },
        }
    }

    /// How many bytes.
    pub fn len(&self) -> (r: usize)
        ensures
            r == self@.len,
            r == self@.bytes().len(),
    {
        proof {
            use_type_invariant(self);
        }
        self.len as usize
    }

    /// Whether there are none.
    pub fn is_empty(&self) -> (r: bool)
        ensures
            r == (self@.len == 0),
    {
        self.len == 0
    }

    /// Write the length and then the whole field over `out` from `at` on.
    pub fn put(&self, out: &mut [u8], at: usize)
        requires
            at + 1 + N <= old(out)@.len(),
        ensures
            final(out)@ == spliced(old(out)@, at as int, self@.image()),
    {
        let ghost before = out@;
        out[at] = self.len;
        copy_at(out, at + 1, self.bytes.as_slice());
        proof {
            assert(out@ =~= spliced(before, at as int, self@.image()));
        }
    }

    /// Read the length and the field from `bytes` at `at`, refusing a length
    /// past the cap and bytes that are not UTF-8.
    pub fn take(bytes: &[u8], at: usize) -> (r: Result<Self, Malformed>)
        requires
            at < usize::MAX,
        ensures
            match r {
                Ok(t) => text_at(bytes@, at as nat, N as nat) == Ok::<TextModel, Malformed>(t@),
                Err(m) => text_at(bytes@, at as nat, N as nat) == Err::<TextModel, Malformed>(m),
            },
            r matches Ok(t) ==> t@.sound(N as nat),
    {
        if at >= bytes.len() {
            return Err(Malformed { at });
        }
        let len: u8 = bytes[at];
        if len as usize > N {
            return Err(Malformed { at });
        }
        if bytes.len() - at - 1 < N {
            return Err(Malformed { at: at + 1 });
        }
        let mut field = [0u8; N];
        let from = &bytes[at + 1..at + 1 + N];
        copy_at(&mut field, 0, from);
        proof {
            assert(field@ =~= bytes@.subrange(at + 1, at + 1 + N as int));
        }
        let held = field.as_slice();
        let said = &held[0..len as usize];
        proof {
            assert(said@ =~= field@.take(len as int));
        }
        if as_utf8(said).is_none() {
            return Err(Malformed { at: at + 1 });
        }
        Ok(Text { bytes: field, len })
    }
}

/// A text written down reads back as the same text, wherever it is written.
pub proof fn law_a_text_reads_back(text: TextModel, cap: nat, base: Seq<u8>, at: nat)
    requires
        text.sound(cap),
        at + 1 + cap <= base.len(),
    ensures
        text_at(spliced(base, at as int, text.image()), at, cap) == Ok::<TextModel, Malformed>(text),
{
    let written = spliced(base, at as int, text.image());
    assert(written.subrange(at as int + 1, at + 1 + cap as int) =~= text.field);
}

} // verus!
