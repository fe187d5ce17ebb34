use vstd::prelude::*;
use vstd::string::StringSliceAdditionalSpecFns;
use vstd::utf8::is_char_boundary;

use crate::encoding::{hex_decode, hex_decoded, hex_encode, hex_lower};

verus! {

/// A value of one of two types, as bitcoind answers some calls either with
/// raw hex data or with a decoded object.
#[derive(Debug)]
pub enum Either<Left, Right> {
    Left(Left),
    Right(Right),
}

impl<Left, Right> Either<Left, Right> {
    /// The left value, if this is one.
    pub open spec fn left(self) -> Option<Left> {
        match self {
            Either::Left(a) => Some(a),
            Either::Right(_) => None,
        }
    }

    /// The right value, if this is one.
    pub open spec fn right(self) -> Option<Right> {
        match self {
            Either::Left(_) => None,
            Either::Right(b) => Some(b),
        }
    }

    pub fn as_left(&self) -> (res: Option<&Left>)
        ensures
            match *self {
                Either::Left(a) => res == Some(&a),
                Either::Right(_) => res is None,
            },
    {
        match self {
            Either::Left(a) => Some(a),
            _ => None,
        }
    }

    pub fn as_right(&self) -> (res: Option<&Right>)
        ensures
            match *self {
                Either::Left(_) => res is None,
                Either::Right(b) => res == Some(&b),
            },
    {
        match self {
            Either::Right(a) => Some(a),
            _ => None,
        }
    }

    pub fn into_left(self) -> (res: Option<Left>)
        ensures
            res == self.left(),
    {
        match self {
            Either::Left(a) => Some(a),
            _ => None,
        }
    }

    pub fn into_right(self) -> (res: Option<Right>)
        ensures
            res == self.right(),
    {
        match self {
            Either::Right(a) => Some(a),
            _ => None,
        }
    }
}

/// `copy` is a clone of `original`: the same side, holding a clone of the
/// value.
pub open spec fn is_clone_of<Left: Clone, Right: Clone>(original: Either<Left, Right>, copy: Either<Left, Right>) -> bool {
    match (original, copy) {
        (Either::Left(a), Either::Left(b)) => cloned::<Left>(a, b),
        (Either::Right(a), Either::Right(b)) => cloned::<Right>(a, b),
        _ => false,
    }
}

impl<Left: Clone, Right: Clone> Clone for Either<Left, Right> {
    fn clone(&self) -> (res: Self)
        ensures
            is_clone_of(*self, res),
    {
        match self {
            Either::Left(a) => Either::Left(a.clone()),
            Either::Right(b) => Either::Right(b.clone()),
        }
    }
}

/// A clone has a right value exactly where the original has one, and it is
/// a clone of the original's; likewise on the left. So taking the right
/// value of a clone gives a clone of what `as_right` shows of the original.
pub proof fn lemma_clone_keeps_side<Left: Clone, Right: Clone>(original: Either<Left, Right>, copy: Either<Left, Right>)
    requires
        is_clone_of(original, copy),
    ensures
        original.right() is Some <==> copy.right() is Some,
        original.left() is Some <==> copy.left() is Some,
        original.right() is Some ==> cloned::<Right>(original.right().unwrap(), copy.right().unwrap()),
        original.left() is Some ==> cloned::<Left>(original.left().unwrap(), copy.left().unwrap()),
{
}

} // verus!

verus! {

/// Compares two texts.
pub fn str_eq(a: &str, b: &str) -> (res: bool)
    ensures
        res == (a@ == b@),
{
    let x = a.to_owned();
    let y = b.to_owned();
    x == y
}

} // verus!

verus! {

/// Bytes that are written as hexadecimal text.
#[derive(Debug)]
pub struct HexBytes(pub Vec<u8>);

impl HexBytes {
    /// The bytes as lower-case hexadecimal text.
    pub fn to_hex(&self) -> (res: String)
        ensures
            res@ == hex_lower(self.0@),
    {
        hex_encode(self.0.as_slice())
    }

    /// The bytes that hexadecimal text of either case stands for; `None`
    /// for any other text.
    pub fn from_hex(text: &str) -> (res: Option<HexBytes>)
        ensures
            match hex_decoded(text@) {
                Some(b) => res matches Some(h) && h.0@ == b,
                None => res is None,
            },
    {
        match hex_decode(text) {
            Some(v) => Some(HexBytes(v)),
            None => None,
        }
    }
}

/// Whether a pattern of bytes occurs in a text.
pub open spec fn occurs(text: Seq<u8>, pattern: Seq<u8>) -> bool {
    exists|i: int| 0 <= i <= text.len() - pattern.len() && #[trigger] text.subrange(i, i + pattern.len()) == pattern
}

/// Whether a pattern of bytes occurs at a position of a text.
fn occurs_at(text: &[u8], pattern: &[u8], at: usize) -> (res: bool)
    requires
        at + pattern@.len() <= text@.len(),
    ensures
        res == (text@.subrange(at as int, at + pattern@.len()) == pattern@),
{
    let n = text.len();
    let m = pattern.len();
    let mut j: usize = 0;
    while j < m
        invariant
            n == text@.len(),
            m == pattern@.len(),
            at + m <= text@.len(),
            j <= m,
            forall|k: int| 0 <= k < j ==> text@[at + k] == pattern@[k],
        decreases m - j,
    {
        if text[at + j] != pattern[j] {
            assert(text@.subrange(at as int, at + m)[j as int] != pattern@[j as int]);
            return false;
        }
        j = j + 1;
    }
    assert(text@.subrange(at as int, at + m) =~= pattern@);
    true
}

/// Whether a pattern of bytes occurs in a text.
fn find_occurrence(text: &[u8], pattern: &[u8]) -> (res: bool)
    ensures
        res == occurs(text@, pattern@),
{
    let n = text.len();
    let m = pattern.len();
    if m > n {
        return false;
    }
    let mut i: usize = 0;
    loop
        invariant
            n == text@.len(),
            m == pattern@.len(),
            m <= n,
            i <= n - m,
            forall|k: int| 0 <= k < i ==> #[trigger] text@.subrange(k, k + m) != pattern@,
        decreases n - m - i,
    {
        if occurs_at(text, pattern, i) {
            return true;
        }
        if i == n - m {
            return false;
        }
        i = i + 1;
    }
}

/// Stripping a prefix or a suffix from a text: where the pattern occurs
/// anywhere in the text, as many bytes as the pattern has are cut off the
/// front (or the back).
pub trait StrCompat {
    /// The UTF-8 bytes of the text.
    spec fn text_bytes(&self) -> Seq<u8>;

    fn strip_prefix<'a>(&'a self, prefix: &str) -> (res: Option<&'a str>)
        requires
            occurs(self.text_bytes(), prefix.spec_bytes()) ==> is_char_boundary(
                self.text_bytes(),
                prefix.spec_bytes().len() as int,
            ),
        ensures
            res is Some <==> occurs(self.text_bytes(), prefix.spec_bytes()),
            res matches Some(r) ==> r.spec_bytes() == self.text_bytes().skip(prefix.spec_bytes().len() as int),
    ;

    fn strip_suffix<'a>(&'a self, suffix: &str) -> (res: Option<&'a str>)
        requires
            occurs(self.text_bytes(), suffix.spec_bytes()) ==> is_char_boundary(
                self.text_bytes(),
                self.text_bytes().len() - suffix.spec_bytes().len(),
            ),
        ensures
            res is Some <==> occurs(self.text_bytes(), suffix.spec_bytes()),
            res matches Some(r) ==> r.spec_bytes() == self.text_bytes().take(
                self.text_bytes().len() - suffix.spec_bytes().len(),
            ),
    ;
}

impl StrCompat for str {
    open spec fn text_bytes(&self) -> Seq<u8> {
        self.spec_bytes()
    }

    fn strip_prefix<'a>(&'a self, prefix: &str) -> (res: Option<&'a str>) {
        let text = self.as_bytes();
        let pattern = prefix.as_bytes();
        if find_occurrence(text, pattern) {
            let (_, rest) = self.split_at(pattern.len());
            Some(rest)
        } else {
            None
        }
    }

    fn strip_suffix<'a>(&'a self, suffix: &str) -> (res: Option<&'a str>) {
        let text = self.as_bytes();
        let pattern = suffix.as_bytes();
        if find_occurrence(text, pattern) {
            let (front, _) = self.split_at(text.len() - pattern.len());
            Some(front)
        } else {
            None
        }
    }
}

} // verus!
