//! The keys that robots present.
//!
//! A key is read from one text:
//!
//! | Presented | Meaning |
//! |---|---|
//! | `1234` | a numeric password |
//! | `pass:<secret>` | a password |
//! | `did:<method>:...` | a decentralized identifier, recognised but not accepted |
//!
//! A [`Key`] is what a robot presents. What is stored is a [`KeyVerifier`]: a
//! password hash of the key, never the key.

use crate::text::{
    begins_with, decimal, decimal_text, integer_of, is_digit, is_space, joined,
    lemma_integer_of_decimal_text, read_integer, starts_with, strip_prefix, trim, trimmed,
};
use vstd::bytes::{spec_u64_from_le_bytes, spec_u64_to_le_bytes, u64_to_le_bytes};
use vstd::prelude::*;
use vstd::string::*;

verus! {

/// A robot's key.
#[derive(Debug, PartialEq, Eq)]
pub enum Key {
    /// A numeric password.
    Numeric(u64),
    /// A password: what stands behind `pass:`, verbatim.
    Pass(String),
}

/// What a [`Key`] stands for.
pub enum KeyView {
    Numeric(u64),
    Pass(Seq<char>),
}

impl View for Key {
    type V = KeyView;

    open spec fn view(&self) -> KeyView {
        match self {
            Key::Numeric(n) => KeyView::Numeric(*n),
            Key::Pass(p) => KeyView::Pass(p@),
        }
    }
}

impl Clone for Key {
    fn clone(&self) -> (k: Self)
        ensures
            k@ == self@,
    {
        match self {
            Key::Numeric(n) => Key::Numeric(*n),
            Key::Pass(p) => Key::Pass(p.clone()),
        }
    }
}

/// Why a text is not a [`Key`].
#[derive(Debug, PartialEq, Eq)]
pub enum KeyError {
    /// Neither an integer nor a recognised form.
    Malformed,
    /// A decentralized identifier of a method that is not accepted.
    Unsupported(String),
}

/// What a [`KeyError`] stands for.
pub enum KeyErrorView {
    Malformed,
    Unsupported(Seq<char>),
}

impl View for KeyError {
    type V = KeyErrorView;

    open spec fn view(&self) -> KeyErrorView {
        match self {
            KeyError::Malformed => KeyErrorView::Malformed,
            KeyError::Unsupported(m) => KeyErrorView::Unsupported(m@),
        }
    }
}

impl Clone for KeyError {
    fn clone(&self) -> (e: Self)
        ensures
            e@ == self@,
    {
        match self {
            KeyError::Malformed => KeyError::Malformed,
            KeyError::Unsupported(m) => KeyError::Unsupported(m.clone()),
        }
    }
}

/// The key that a text denotes. `did_method` is the method of the trimmed text
/// where that is a well-formed decentralized identifier.
pub open spec fn key_of(raw: Seq<char>, did_method: Option<Seq<char>>) -> Result<
    KeyView,
    KeyErrorView,
> {
    let text = trimmed(raw);
    match integer_of(text) {
        Some(n) => Ok(KeyView::Numeric(n)),
        None => if begins_with(text, "pass:"@) {
            let secret = text.skip("pass:"@.len() as int);
            if secret.len() == 0 {
                Err(KeyErrorView::Malformed)
            } else {
                Ok(KeyView::Pass(secret))
            }
        } else if begins_with(text, "did:"@) {
            match did_method {
                Some(method) => Err(KeyErrorView::Unsupported("did:"@ + method)),
                None => Err(KeyErrorView::Malformed),
            }
        } else {
            Err(KeyErrorView::Malformed)
        },
    }
}

/// What a parsing result stands for.
pub open spec fn parsed_view(r: Result<Key, KeyError>) -> Result<KeyView, KeyErrorView> {
    match r {
        Ok(k) => Ok(k@),
        Err(e) => Err(e@),
    }
}

/// The bytes that a key is hashed as. The first byte tells numeric keys and
/// passwords apart.
pub open spec fn material_of(key: KeyView) -> Seq<u8> {
    match key {
        KeyView::Numeric(n) => seq![110u8] + spec_u64_to_le_bytes(n),
        KeyView::Pass(p) => seq![112u8] + vstd::utf8::encode_utf8(p),
    }
}

/// How a key is written.
pub open spec fn key_text(key: KeyView) -> Seq<char> {
    match key {
        KeyView::Numeric(n) => decimal_text(n as nat),
        KeyView::Pass(p) => "pass:"@ + p,
    }
}

impl Key {
    /// The text that has to be parsed as a decentralized identifier before the
    /// key can be read, if there is one.
    pub fn did_text(raw: &str) -> (did: Option<&str>)
        ensures
            did is Some <==> integer_of(trimmed(raw@)) is None && begins_with(
                trimmed(raw@),
                "did:"@,
            ),
            did matches Some(d) ==> d@ == trimmed(raw@),
    {
        let text = trim(raw);
        if read_integer(text).is_none() && starts_with(text, "did:") {
            Some(text)
        } else {
            None
        }
    }

    /// Reads a key. `did_method` is the method of [`Key::did_text`] where that
    /// is a well-formed decentralized identifier.
    pub fn parse(raw: &str, did_method: Option<&str>) -> (r: Result<Self, KeyError>)
        ensures
            parsed_view(r) == key_of(
                raw@,
                match did_method {
                    Some(m) => Some(m@),
                    None => None,
                },
            ),
    {
        let text = trim(raw);
        if let Some(n) = read_integer(text) {
            return Ok(Key::Numeric(n));
        }
        if let Some(secret) = strip_prefix(text, "pass:") {
            if secret.as_str().is_empty() {
                return Err(KeyError::Malformed);
            }
            return Ok(Key::Pass(secret));
        }
        if starts_with(text, "did:") {
            return match did_method {
                Some(method) => Err(KeyError::Unsupported(joined("did:", method))),
                None => Err(KeyError::Malformed),
            };
        }
        Err(KeyError::Malformed)
    }

    /// The bytes that the key is hashed as.
    pub fn material(&self) -> (out: Vec<u8>)
        ensures
            out@ == material_of(self@),
    {
        let mut out: Vec<u8> = Vec::new();
        match self {
            Key::Numeric(n) => {
                out.push(110);
                let mut bytes = u64_to_le_bytes(*n);
                out.append(&mut bytes);
            },
            Key::Pass(p) => {
                out.push(112);
                let bytes = p.as_str().as_bytes();
                out.extend_from_slice(bytes);
            },
        }
        assert(out@ =~= material_of(self@));
        out
    }

    /// Whether two keys are the same. The secret bytes are compared without
    /// stopping at the first difference. Keys of different kinds never match.
    pub fn matches(&self, other: &Key) -> (same: bool)
        ensures
            same == (self@ == other@),
    {
        broadcast use vstd::utf8::encode_utf8_decode_utf8;

        proof {
            vstd::bytes::lemma_auto_spec_u64_to_from_le_bytes();
        }
        match (self, other) {
            (Key::Numeric(a), Key::Numeric(b)) => {
                let x = u64_to_le_bytes(*a);
                let y = u64_to_le_bytes(*b);
                assert(spec_u64_from_le_bytes(x@) == a);
                assert(spec_u64_from_le_bytes(y@) == b);
                ct_eq_bytes(x.as_slice(), y.as_slice())
            },
            (Key::Pass(a), Key::Pass(b)) => {
                let x = a.as_str().as_bytes();
                let y = b.as_str().as_bytes();
                assert(vstd::utf8::decode_utf8(x@) == a@);
                assert(vstd::utf8::decode_utf8(y@) == b@);
                ct_eq_bytes(x, y)
            },
            _ => false,
        }
    }

    /// Writes the key in the form in which it is read.
    pub fn to_text(&self) -> (s: String)
        ensures
            s@ == key_text(self@),
    {
        match self {
            Key::Numeric(n) => decimal(*n as u128),
            Key::Pass(p) => joined("pass:", p.as_str()),
        }
    }
}

/// Whether two byte strings are equal. Different lengths are told at once;
/// otherwise every byte is looked at, whatever the ones before it were.
pub fn ct_eq_bytes(a: &[u8], b: &[u8]) -> (same: bool)
    ensures
        same == (a@ == b@),
{
    if a.len() != b.len() {
        return false;
    }
    let mut diff: u8 = 0;
    let mut i: usize = 0;
    while i < a.len()
        invariant
            i <= a.len(),
            a.len() == b.len(),
            diff == 0 <==> (forall|j: int| 0 <= j < i ==> a@[j] == b@[j]),
        decreases a.len() - i,
    {
        let x: u8 = a[i];
        let y: u8 = b[i];
        let before: u8 = diff;
        diff = before | (x ^ y);
        assert((before | (x ^ y)) == 0 <==> before == 0 && x == y) by (bit_vector);
        i = i + 1;
    }
    assert(diff == 0 ==> a@ =~= b@);
    diff == 0
}

/// What is stored for a robot: the password hash of its key, never the key.
#[derive(Debug, PartialEq, Eq)]
pub struct KeyVerifier(pub String);

impl Clone for KeyVerifier {
    fn clone(&self) -> (v: Self)
        ensures
            v == *self,
    {
        KeyVerifier(self.0.clone())
    }
}

impl KeyVerifier {
    /// Hashes a key for storage. `hash` is the password hash in use; a key that
    /// it cannot hash is malformed.
    pub fn derive(key: &Key, hash: impl Fn(Vec<u8>) -> Option<String>) -> (r: Result<
        Self,
        KeyError,
    >)
        requires
            forall|m: Vec<u8>| m@ == material_of(key@) ==> call_requires(hash, (m,)),
        ensures
            exists|m: Vec<u8>, h: Option<String>|
                {
                    &&& m@ == material_of(key@)
                    &&& #[trigger] call_ensures(hash, (m,), h)
                    &&& match h {
                        Some(text) => r matches Ok(v) && v.0 == text,
                        None => r matches Err(KeyError::Malformed),
                    }
                },
    {
        let hashed = hash(key.material());
        match hashed {
            Some(text) => Ok(KeyVerifier(text)),
            None => Err(KeyError::Malformed),
        }
    }

    /// Whether a presented key is the stored one. `check` tells whether bytes
    /// have a given password hash.
    pub fn verify(&self, presented: &Key, check: impl Fn(String, Vec<u8>) -> bool) -> (ok: bool)
        requires
            forall|m: Vec<u8>|
                m@ == material_of(presented@) ==> call_requires(check, (self.0, m)),
        ensures
            exists|m: Vec<u8>|
                m@ == material_of(presented@) && #[trigger] call_ensures(check, (self.0, m), ok),
    {
        check(self.0.clone(), presented.material())
    }
}

/// Different keys are hashed as different bytes.
pub proof fn lemma_material_is_injective(a: KeyView, b: KeyView)
    ensures
        material_of(a) == material_of(b) <==> a == b,
{
    broadcast use vstd::utf8::encode_utf8_decode_utf8;

    vstd::bytes::lemma_auto_spec_u64_to_from_le_bytes();
    if material_of(a) == material_of(b) {
        assert(material_of(a)[0] == material_of(b)[0]);
        let x = material_of(a).skip(1);
        let y = material_of(b).skip(1);
        match (a, b) {
            (KeyView::Numeric(m), KeyView::Numeric(n)) => {
                assert(x =~= spec_u64_to_le_bytes(m));
                assert(y =~= spec_u64_to_le_bytes(n));
                assert(spec_u64_from_le_bytes(x) == m);
            },
            (KeyView::Pass(p), KeyView::Pass(q)) => {
                assert(x =~= vstd::utf8::encode_utf8(p));
                assert(y =~= vstd::utf8::encode_utf8(q));
                assert(vstd::utf8::decode_utf8(x) == p);
            },
            _ => {},
        }
    }
}

/// A key that is written is read back. A password that is empty or ends in
/// whitespace is not.
pub proof fn lemma_key_text_is_read_back(key: KeyView, did_method: Option<Seq<char>>)
    requires
        key matches KeyView::Pass(p) ==> p.len() > 0 && !is_space(p.last()),
    ensures
        key_of(key_text(key), did_method) == Ok::<KeyView, KeyErrorView>(key),
{
    match key {
        KeyView::Numeric(n) => lemma_integer_of_decimal_text(n),
        KeyView::Pass(p) => {
            reveal_strlit("pass:");
            let t = "pass:"@ + p;
            assert(t[0] == 'p');
            assert(t.last() == p.last());
            assert(trimmed(t) == t);
            assert(!is_digit(t[0]));
            assert(t.take(5) =~= "pass:"@);
            assert(t.skip(5) =~= p);
        },
    }
}

} // verus!
