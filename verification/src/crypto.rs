//! Envelope encryption: each secret under a data key of its own, the data keys under master keys that
//! are kept in a ring and rotated.
use vstd::prelude::*;
use vstd::slice::slice_subrange;
use vstd::string::StringExecFns;

use crate::dup::{view_opt, views};
use crate::error::{Error, ErrorView, validation_err};
use crate::model::{Ciphertext, CiphertextView};
use crate::outside::{
    aead_open, aead_opened, aead_seal, aead_sealed, b64_bytes, b64_decode, b64_encode, b64_text,
    random_bytes, read_string_list, sealable, string_list, string_list_bytes, write_string_list,
};
use crate::text::{dec, decimal};

verus! {

/// An error of the encryption layer.
#[derive(Debug, PartialEq)]
pub enum CryptoError {
    Msg(String),
}

impl View for CryptoError {
    type V = Seq<char>;

    open spec fn view(&self) -> Seq<char> {
        match *self {
            CryptoError::Msg(m) => m@,
        }
    }
}

impl CryptoError {
    /// The error as a line of text.
    pub fn text(&self) -> (r: String)
        ensures
            r@ == "crypto: "@ + self@,
    {
        match self {
            CryptoError::Msg(m) => {
                let mut s: String = "crypto: ".to_owned();
                s.append(m.as_str());
                s
            },
        }
    }
}

fn fail(a: &str, b: &str) -> (r: CryptoError)
    ensures
        r@ == a@ + b@,
{
    let mut s: String = a.to_owned();
    s.append(b);
    CryptoError::Msg(s)
}

fn fail_plain(a: &str) -> (r: CryptoError)
    ensures
        r@ == a@,
{
    CryptoError::Msg(a.to_owned())
}

/// The master keys, the oldest first; the last one is current.
#[derive(Debug, Default)]
pub struct KeyRing {
    entries: Vec<[u8; 32]>,
}

impl View for KeyRing {
    type V = Seq<Seq<u8>>;

    closed spec fn view(&self) -> Seq<Seq<u8>> {
        Seq::new(self.entries@.len(), |i: int| self.entries@[i]@)
    }
}

/// The master key of a generation; the first one has generation 1.
pub open spec fn kek_at(keys: Seq<Seq<u8>>, generation: u64) -> Option<Seq<u8>> {
    if 1 <= generation <= keys.len() {
        Some(keys[generation - 1])
    } else {
        None
    }
}

impl KeyRing {
    pub fn new(initial: [u8; 32]) -> (r: Self)
        ensures
            r@ == seq![initial@],
    {
        let mut entries: Vec<[u8; 32]> = Vec::new();
        entries.push(initial);
        let r: KeyRing = KeyRing { entries };
        assert(r@ =~= seq![initial@]);
        r
    }

    pub fn from_entries(entries: Vec<[u8; 32]>) -> (r: Self)
        ensures
            r@ == key_views(entries@),
    {
        let r: KeyRing = KeyRing { entries };
        assert(r@ =~= key_views(entries@));
        r
    }

    /// The generation of the current key.
    pub fn generation(&self) -> (r: u64)
        ensures
            r == self@.len(),
    {
        self.entries.len() as u64
    }

    /// The key of a generation.
    pub fn get(&self, generation: u64) -> (r: Option<&[u8; 32]>)
        ensures
            match r {
                Some(k) => kek_at(self@, generation) == Some(k@),
                None => kek_at(self@, generation) is None,
            },
    {
        if generation >= 1 && generation <= self.entries.len() as u64 {
            let i: usize = (generation - 1) as usize;
            Some(&self.entries[i])
        } else {
            None
        }
    }

    /// The current key.
    pub fn current(&self) -> (r: &[u8; 32])
        requires
            self@.len() > 0,
        ensures
            r@ == self@.last(),
    {
        &self.entries[self.entries.len() - 1]
    }

    /// Adds a key, which is then current; the older ones stay.
    pub fn push(&mut self, kek: [u8; 32])
        ensures
            final(self)@ == old(self)@.push(kek@),
    {
        let ghost before = self@;
        self.entries.push(kek);
        assert(self@ =~= before.push(kek@));
    }

    pub fn entries(&self) -> (r: &Vec<[u8; 32]>)
        ensures
            key_views(r@) == self@,
    {
        assert(key_views(self.entries@) =~= self@);
        &self.entries
    }

    /// Another ring with the same keys.
    pub fn copy(&self) -> (r: Self)
        ensures
            r@ == self@,
    {
        let mut entries: Vec<[u8; 32]> = Vec::new();
        let mut i: usize = 0;
        while i < self.entries.len()
            invariant
                i <= self.entries@.len(),
                entries@ == self.entries@.take(i as int),
            decreases self.entries@.len() - i,
        {
            entries.push(self.entries[i]);
            assert(self.entries@.take(i + 1) =~= self.entries@.take(i as int).push(
                self.entries@[i as int],
            ));
            i = i + 1;
        }
        assert(self.entries@.take(i as int) =~= self.entries@);
        KeyRing { entries }
    }

    /// Whether the ring holds the key.
    pub fn holds(&self, kek: &[u8; 32]) -> (r: bool)
        ensures
            r == self@.contains(kek@),
    {
        let mut i: usize = 0;
        while i < self.entries.len()
            invariant
                i <= self.entries@.len(),
                forall|j: int| 0 <= j < i ==> #[trigger] self@[j] != kek@,
            decreases self.entries@.len() - i,
        {
            if same_key(&self.entries[i], kek) {
                assert(self@[i as int] == kek@);
                return true;
            }
            i = i + 1;
        }
        false
    }
}

impl Clone for KeyRing {
    fn clone(&self) -> (r: Self)
        ensures
            r@ == self@,
    {
        self.copy()
    }
}

pub open spec fn key_views(entries: Seq<[u8; 32]>) -> Seq<Seq<u8>> {
    Seq::new(entries.len(), |i: int| entries[i]@)
}

fn same_key(a: &[u8; 32], b: &[u8; 32]) -> (r: bool)
    ensures
        r == (a@ == b@),
{
    let mut i: usize = 0;
    while i < 32
        invariant
            i <= 32,
            forall|j: int| 0 <= j < i ==> a@[j] == b@[j],
        decreases 32 - i,
    {
        if a[i] != b[i] {
            return false;
        }
        i = i + 1;
    }
    assert(a@ =~= b@);
    true
}

/// 32 bytes as a key.
fn key_of(v: &Vec<u8>) -> (r: [u8; 32])
    requires
        v@.len() == 32,
    ensures
        r@ == v@,
{
    let mut k: [u8; 32] = [0u8; 32];
    let mut i: usize = 0;
    while i < 32
        invariant
            i <= 32,
            v@.len() == 32,
            forall|j: int| 0 <= j < i ==> k@[j] == v@[j],
        decreases 32 - i,
    {
        k[i] = v[i];
        i = i + 1;
    }
    assert(k@ =~= v@);
    k
}

/// The bytes as a key, where there are 32 of them.
fn as_key(v: &Vec<u8>) -> (r: Option<[u8; 32]>)
    ensures
        match r {
            Some(k) => v@.len() == 32 && k@ == v@,
            None => v@.len() != 32,
        },
{
    if v.len() == 32 {
        Some(key_of(v))
    } else {
        None
    }
}

/// 12 bytes as a nonce.
fn nonce_of(v: &Vec<u8>) -> (r: [u8; 12])
    requires
        v@.len() == 12,
    ensures
        r@ == v@,
{
    let mut k: [u8; 12] = [0u8; 12];
    let mut i: usize = 0;
    while i < 12
        invariant
            i <= 12,
            v@.len() == 12,
            forall|j: int| 0 <= j < i ==> k@[j] == v@[j],
        decreases 12 - i,
    {
        k[i] = v[i];
        i = i + 1;
    }
    assert(k@ =~= v@);
    k
}

// ---------------------------------------------------------------------------------------------
// What encryption and decryption give
// ---------------------------------------------------------------------------------------------

pub open spec fn decoded(text: Seq<char>) -> Result<Seq<u8>, Seq<char>> {
    match b64_bytes(text) {
        Ok(v) => Ok(v),
        Err(e) => Err("base64: "@ + e),
    }
}

pub open spec fn unsealed(key: Seq<u8>, nonce: Seq<u8>, data: Seq<u8>) -> Result<Seq<u8>, Seq<char>> {
    match aead_opened(key, nonce, data) {
        Some(v) => Ok(v),
        None => Err("aead: Error"@),
    }
}

/// The data key of a ciphertext, unwrapped with a master key.
pub open spec fn dek_of(kek: Seq<u8>, c: CiphertextView) -> Result<Seq<u8>, Seq<char>> {
    match decoded(c.edek_nonce) {
        Err(e) => Err(e),
        Ok(nonce) => match decoded(c.edek) {
            Err(e) => Err(e),
            Ok(data) => unsealed(kek, nonce, data),
        },
    }
}

/// The master key for a ciphertext: that of its generation, or, where the ring has none, the current one.
pub open spec fn kek_for(keys: Seq<Seq<u8>>, generation: u64) -> Option<Seq<u8>> {
    if kek_at(keys, generation) is Some {
        kek_at(keys, generation)
    } else if keys.len() > 0 {
        Some(keys.last())
    } else {
        None
    }
}

/// The plaintext of the data of a ciphertext.
pub open spec fn data_of(dek: Seq<u8>, c: CiphertextView) -> Result<Seq<u8>, Seq<char>> {
    if dek.len() != 32 {
        Err("key length: Invalid Length"@)
    } else {
        match decoded(c.nonce) {
            Err(e) => Err(e),
            Ok(nonce) => match decoded(c.ct) {
                Err(e) => Err(e),
                Ok(data) => unsealed(dek, nonce, data),
            },
        }
    }
}

/// The plaintext of a ciphertext.
pub open spec fn decrypted(keys: Seq<Seq<u8>>, c: CiphertextView) -> Result<Seq<u8>, Seq<char>> {
    match kek_for(keys, c.dek_v) {
        None => Err("no KEK for generation "@ + dec(c.dek_v as nat)),
        Some(kek) => match dek_of(kek, c) {
            Err(e) => Err(e),
            Ok(dek) => data_of(dek, c),
        },
    }
}

/// A base64 nonce, where it decodes, has 12 bytes.
pub open spec fn nonce_fits(text: Seq<char>) -> bool {
    b64_bytes(text) matches Ok(v) ==> v.len() == 12
}

/// The ciphertext of a plaintext for the random values that go into it.
pub open spec fn encrypted(
    keys: Seq<Seq<u8>>,
    dek: Seq<u8>,
    nonce: Seq<u8>,
    edek_nonce: Seq<u8>,
    plain: Seq<u8>,
) -> Result<CiphertextView, Seq<char>> {
    match aead_sealed(dek, nonce, plain) {
        None => Err("aead: Error"@),
        Some(ct) => match aead_sealed(keys.last(), edek_nonce, dek) {
            None => Err("aead: Error"@),
            Some(edek) => Ok(
                CiphertextView {
                    enc: "aes-256-gcm"@,
                    v: 1,
                    dek_v: keys.len() as u64,
                    nonce: b64_text(nonce),
                    ct: b64_text(ct),
                    edek: b64_text(edek),
                    edek_nonce: b64_text(edek_nonce),
                },
            ),
        },
    }
}

/// Whether the data key of a ciphertext can be wrapped anew: the ring has its master key, which unwraps it.
pub open spec fn rewrappable(keys: Seq<Seq<u8>>, c: CiphertextView) -> bool {
    kek_at(keys, c.dek_v) matches Some(kek) && (dek_of(kek, c) matches Ok(dek) && sealable(dek))
}

/// The ciphertext `d` is `c` with its data key wrapped anew: the data stands as it was, and decrypts as it
/// did.
pub open spec fn rewraps(keys: Seq<Seq<u8>>, c: CiphertextView, d: CiphertextView) -> bool {
    &&& d == (CiphertextView { dek_v: d.dek_v, edek: d.edek, edek_nonce: d.edek_nonce, ..c })
    &&& d.dek_v == keys.len()
    &&& nonce_fits(d.edek_nonce)
    &&& decrypted(keys, d) == decrypted(keys, c)
}

/// The ciphertext with its data key under the current master key, for a random nonce.
pub open spec fn rewrapped(keys: Seq<Seq<u8>>, c: CiphertextView, edek_nonce: Seq<u8>) -> Result<
    CiphertextView,
    Seq<char>,
> {
    match kek_at(keys, c.dek_v) {
        None => Err("unknown KEK generation "@ + dec(c.dek_v as nat)),
        Some(kek) => match dek_of(kek, c) {
            Err(e) => Err(e),
            Ok(dek) => match aead_sealed(keys.last(), edek_nonce, dek) {
                None => Err("aead: Error"@),
                Some(edek) => Ok(
                    CiphertextView {
                        dek_v: keys.len() as u64,
                        edek: b64_text(edek),
                        edek_nonce: b64_text(edek_nonce),
                        ..c
                    },
                ),
            },
        },
    }
}

/// The result is the wanted one.
pub open spec fn makes<T: View>(r: Result<T, CryptoError>, want: Result<T::V, Seq<char>>) -> bool {
    match r {
        Ok(x) => want == Ok::<T::V, Seq<char>>(x@),
        Err(e) => want == Err::<T::V, Seq<char>>(e@),
    }
}

fn decode(text: &str) -> (r: Result<Vec<u8>, CryptoError>)
    ensures
        makes(r, decoded(text@)),
{
    match b64_decode(text) {
        Ok(v) => Ok(v),
        Err(e) => Err(fail("base64: ", e.as_str())),
    }
}

fn unseal(key: &[u8], nonce: &[u8], data: &[u8]) -> (r: Result<Vec<u8>, CryptoError>)
    requires
        key@.len() == 32,
        nonce@.len() == 12,
    ensures
        makes(r, unsealed(key@, nonce@, data@)),
{
    match aead_open(key, nonce, data) {
        Some(v) => Ok(v),
        None => Err(fail_plain("aead: Error")),
    }
}

fn unwrap_dek(kek: &[u8; 32], c: &Ciphertext) -> (r: Result<Vec<u8>, CryptoError>)
    requires
        nonce_fits(c@.edek_nonce),
    ensures
        makes(r, dek_of(kek@, c@)),
{
    let nonce: Vec<u8> = decode(c.edek_nonce.as_str())?;
    let data: Vec<u8> = decode(c.edek.as_str())?;
    unseal(kek.as_slice(), nonce.as_slice(), data.as_slice())
}

/// The encryption layer over a ring of master keys.
pub struct Cipher {
    keys: KeyRing,
}

impl View for Cipher {
    type V = Seq<Seq<u8>>;

    closed spec fn view(&self) -> Seq<Seq<u8>> {
        self.keys@
    }
}

impl Cipher {
    pub fn new(kek: [u8; 32]) -> (r: Self)
        ensures
            r@ == seq![kek@],
    {
        Cipher::with_keyring(KeyRing::new(kek))
    }

    pub fn with_keyring(ring: KeyRing) -> (r: Self)
        ensures
            r@ == ring@,
    {
        Cipher { keys: ring }
    }

    pub fn keyring(&self) -> (r: KeyRing)
        ensures
            r@ == self@,
    {
        self.keys.copy()
    }

    /// Makes a new master key current; the older ones stay, so that older data can be read.
    pub fn rotate_master_key(&mut self, new_kek: [u8; 32])
        ensures
            final(self)@ == old(self)@.push(new_kek@),
    {
        self.keys.push(new_kek);
    }

    /// Encrypts with random values that are given.
    pub fn encrypt_with(
        &self,
        plain: &[u8],
        dek: &[u8; 32],
        nonce: &[u8; 12],
        edek_nonce: &[u8; 12],
    ) -> (r: Result<Ciphertext, CryptoError>)
        requires
            self@.len() > 0,
        ensures
            makes(r, encrypted(self@, dek@, nonce@, edek_nonce@, plain@)),
            (r is Ok) == sealable(plain@),
            r matches Ok(c) ==> nonce_fits(c@.nonce) && nonce_fits(c@.edek_nonce) && decrypted(
                self@,
                c@,
            ) == Ok::<Seq<u8>, Seq<char>>(plain@),
    {
        let ct: Vec<u8> = match aead_seal(dek.as_slice(), nonce.as_slice(), plain) {
            Some(v) => v,
            None => {
                return Err(fail_plain("aead: Error"));
            },
        };
        let edek: Vec<u8> = match aead_seal(
            self.keys.current().as_slice(),
            edek_nonce.as_slice(),
            dek.as_slice(),
        ) {
            Some(v) => v,
            None => {
                return Err(fail_plain("aead: Error"));
            },
        };
        let generation: u64 = self.keys.generation();
        Ok(
            Ciphertext {
                enc: "aes-256-gcm".to_owned(),
                v: 1,
                dek_v: generation,
                nonce: b64_encode(nonce.as_slice()),
                ct: b64_encode(ct.as_slice()),
                edek: b64_encode(edek.as_slice()),
                edek_nonce: b64_encode(edek_nonce.as_slice()),
            },
        )
    }

    /// Encrypts under a fresh data key. What comes out depends on random values; it decrypts to the
    /// plaintext.
    pub fn encrypt_secret(&self, plain: &[u8]) -> (r: Result<Ciphertext, CryptoError>)
        requires
            self@.len() > 0,
        ensures
            exists|dek: [u8; 32], nonce: [u8; 12], edek_nonce: [u8; 12]|
                makes(r, #[trigger] encrypted(self@, dek@, nonce@, edek_nonce@, plain@)),
            (r is Ok) == sealable(plain@),
            r matches Err(e) ==> e@ == "aead: Error"@,
            r matches Ok(c) ==> nonce_fits(c@.nonce) && nonce_fits(c@.edek_nonce) && decrypted(
                self@,
                c@,
            ) == Ok::<Seq<u8>, Seq<char>>(plain@),
    {
        let dek: [u8; 32] = key_of(&random_bytes(32));
        let nonce: [u8; 12] = nonce_of(&random_bytes(12));
        let edek_nonce: [u8; 12] = nonce_of(&random_bytes(12));
        let r: Result<Ciphertext, CryptoError> = self.encrypt_with(plain, &dek, &nonce, &edek_nonce);
        assert(makes(r, encrypted(self@, dek@, nonce@, edek_nonce@, plain@)));
        r
    }

    /// Decrypts a ciphertext whose nonces have 12 bytes.
    pub fn decrypt_secret(&self, c: &Ciphertext) -> (r: Result<Vec<u8>, CryptoError>)
        requires
            nonce_fits(c@.edek_nonce),
            nonce_fits(c@.nonce),
        ensures
            makes(r, decrypted(self@, c@)),
    {
        let generation: u64 = self.keys.generation();
        let kek: &[u8; 32] = match self.keys.get(c.dek_v) {
            Some(k) => k,
            None => {
                if generation == 0 {
                    return Err(fail("no KEK for generation ", decimal(c.dek_v).as_str()));
                }
                self.keys.current()
            },
        };
        let dek: Vec<u8> = unwrap_dek(kek, c)?;
        if dek.len() != 32 {
            return Err(fail_plain("key length: Invalid Length"));
        }
        let nonce: Vec<u8> = decode(c.nonce.as_str())?;
        let data: Vec<u8> = decode(c.ct.as_str())?;
        unseal(dek.as_slice(), nonce.as_slice(), data.as_slice())
    }

    /// Decrypts any ciphertext; `None` where a nonce has not 12 bytes.
    pub fn try_decrypt_secret(&self, c: &Ciphertext) -> (r: Option<Result<Vec<u8>, CryptoError>>)
        ensures
            match r {
                Some(x) => nonce_fits(c@.edek_nonce) && nonce_fits(c@.nonce) && makes(
                    x,
                    decrypted(self@, c@),
                ),
                None => !nonce_fits(c@.edek_nonce) || !nonce_fits(c@.nonce),
            },
    {
        if fits(c.edek_nonce.as_str()) && fits(c.nonce.as_str()) {
            Some(self.decrypt_secret(c))
        } else {
            None
        }
    }

    /// Wraps the data key of a ciphertext anew, under the current master key and with the nonce that is
    /// given. The data is not encrypted again.
    pub fn rewrap_with(&self, c: &Ciphertext, edek_nonce: &[u8; 12]) -> (r: Result<
        Ciphertext,
        CryptoError,
    >)
        requires
            nonce_fits(c@.edek_nonce),
        ensures
            makes(r, rewrapped(self@, c@, edek_nonce@)),
            (r is Ok) == rewrappable(self@, c@),
            r matches Ok(d) ==> rewraps(self@, c@, d@),
    {
        let kek: &[u8; 32] = match self.keys.get(c.dek_v) {
            Some(k) => k,
            None => {
                return Err(fail("unknown KEK generation ", decimal(c.dek_v).as_str()));
            },
        };
        let dek: Vec<u8> = unwrap_dek(kek, c)?;
        let edek: Vec<u8> = match aead_seal(
            self.keys.current().as_slice(),
            edek_nonce.as_slice(),
            dek.as_slice(),
        ) {
            Some(v) => v,
            None => {
                return Err(fail_plain("aead: Error"));
            },
        };
        let generation: u64 = self.keys.generation();
        Ok(
            Ciphertext {
                enc: c.enc.clone(),
                v: c.v,
                dek_v: generation,
                nonce: c.nonce.clone(),
                ct: c.ct.clone(),
                edek: b64_encode(edek.as_slice()),
                edek_nonce: b64_encode(edek_nonce.as_slice()),
            },
        )
    }

    /// Wraps the data key of a ciphertext anew, under the current master key.
    pub fn rewrap_dek(&self, c: &Ciphertext) -> (r: Result<Ciphertext, CryptoError>)
        requires
            nonce_fits(c@.edek_nonce),
        ensures
            exists|edek_nonce: [u8; 12]|
                makes(r, #[trigger] rewrapped(self@, c@, edek_nonce@)),
            (r is Ok) == rewrappable(self@, c@),
            r matches Ok(d) ==> rewraps(self@, c@, d@),
    {
        let edek_nonce: [u8; 12] = nonce_of(&random_bytes(12));
        let r: Result<Ciphertext, CryptoError> = self.rewrap_with(c, &edek_nonce);
        assert(makes(r, rewrapped(self@, c@, edek_nonce@)));
        r
    }

    /// Wraps the data key of any ciphertext anew; `None` where its nonce has not 12 bytes.
    pub fn try_rewrap_dek(&self, c: &Ciphertext) -> (r: Option<Result<Ciphertext, CryptoError>>)
        ensures
            match r {
                Some(x) => nonce_fits(c@.edek_nonce) && (exists|edek_nonce: [u8; 12]|
                    makes(x, #[trigger] rewrapped(self@, c@, edek_nonce@))) && (x is Ok) == rewrappable(
                    self@,
                    c@,
                ) && (x matches Ok(d) ==> rewraps(self@, c@, d@)),
                None => !nonce_fits(c@.edek_nonce),
            },
    {
        if fits(c.edek_nonce.as_str()) {
            Some(self.rewrap_dek(c))
        } else {
            None
        }
    }

    /// A new master key in base64.
    pub fn generate_master_key() -> (r: String)
        ensures
            exists|key: [u8; 32]| r@ == #[trigger] b64_text(key@),
            b64_bytes(r@) matches Ok(v) && v.len() == 32,
    {
        let key: [u8; 32] = key_of(&random_bytes(32));
        let r: String = b64_encode(key.as_slice());
        assert(r@ == b64_text(key@));
        r
    }

    /// What stands for a secret where it is shown: stars, at least one.
    pub fn mask(&self, c: &Ciphertext, show_first: usize) -> (r: String)
        ensures
            r@ == "{secret:"@ + stars(if show_first == 0 { 1 } else { show_first as nat }) + "}"@,
    {
        let n: usize = if show_first == 0 {
            1
        } else {
            show_first
        };
        let mut s: String = "{secret:".to_owned();
        let mut i: usize = 0;
        assert(s@ =~= "{secret:"@ + stars(0));
        while i < n
            invariant
                i <= n,
                s@ == "{secret:"@ + stars(i as nat),
            decreases n - i,
        {
            proof {
                reveal_strlit("*");
                assert("*"@ =~= seq!['*']);
                assert(stars(i as nat) + "*"@ =~= stars((i + 1) as nat));
                assert("{secret:"@ + stars(i as nat) + "*"@ =~= "{secret:"@ + stars(
                    (i + 1) as nat,
                ));
            }
            s.append("*");
            i = i + 1;
        }
        s.append("}");
        s
    }

    /// A new master key under another one: the nonce, then the encrypted key.
    pub fn wrap_master_key_with(kek: &[u8; 32], new_kek: &[u8; 32], nonce: &[u8; 12]) -> (r: Result<
        Vec<u8>,
        CryptoError,
    >)
        ensures
            makes(
                r,
                match aead_sealed(kek@, nonce@, new_kek@) {
                    Some(v) => Ok(nonce@ + v),
                    None => Err("aead: Error"@),
                },
            ),
            r matches Ok(v) && master_key_in(kek@, v@) == Ok::<Seq<u8>, Seq<char>>(new_kek@),
    {
        match aead_seal(kek.as_slice(), nonce.as_slice(), new_kek.as_slice()) {
            Some(v) => {
                let mut out: Vec<u8> = Vec::new();
                let mut sealed: Vec<u8> = v;
                out.extend_from_slice(nonce.as_slice());
                out.append(&mut sealed);
                assert(out@ =~= nonce@ + v@);
                assert(out@.take(12) =~= nonce@);
                assert(out@.skip(12) =~= v@);
                Ok(out)
            },
            None => Err(fail_plain("aead: Error")),
        }
    }

    /// A new master key under another one, with a random nonce.
    pub fn wrap_master_key(kek: &[u8; 32], new_kek: &[u8; 32]) -> (r: Result<Vec<u8>, CryptoError>)
        ensures
            r matches Ok(v) && master_key_in(kek@, v@) == Ok::<Seq<u8>, Seq<char>>(new_kek@),
    {
        let nonce: [u8; 12] = nonce_of(&random_bytes(12));
        Cipher::wrap_master_key_with(kek, new_kek, &nonce)
    }

    /// The master key that was wrapped under another one.
    pub fn unwrap_master_key(kek: &[u8; 32], wrapped: &Vec<u8>) -> (r: Result<[u8; 32], CryptoError>)
        ensures
            match r {
                Ok(k) => master_key_in(kek@, wrapped@) == Ok::<Seq<u8>, Seq<char>>(k@),
                Err(e) => master_key_in(kek@, wrapped@) == Err::<Seq<u8>, Seq<char>>(e@),
            },
    {
        if wrapped.len() < 12 {
            return Err(fail_plain("wrapped key too short"));
        }
        let nonce: &[u8] = slice_subrange(wrapped.as_slice(), 0, 12);
        let data: &[u8] = slice_subrange(wrapped.as_slice(), 12, wrapped.len());
        assert(nonce@ =~= wrapped@.take(12));
        assert(data@ =~= wrapped@.skip(12));
        let plain: Vec<u8> = unseal(kek.as_slice(), nonce, data)?;
        match as_key(&plain) {
            Some(k) => Ok(k),
            None => Err(fail_plain("master key must be 32 bytes")),
        }
    }
}

/// The master key in what [`Cipher::wrap_master_key`] gives.
pub open spec fn master_key_in(kek: Seq<u8>, wrapped: Seq<u8>) -> Result<Seq<u8>, Seq<char>> {
    if wrapped.len() < 12 {
        Err("wrapped key too short"@)
    } else {
        match unsealed(kek, wrapped.take(12), wrapped.skip(12)) {
            Err(e) => Err(e),
            Ok(k) => if k.len() == 32 {
                Ok(k)
            } else {
                Err("master key must be 32 bytes"@)
            },
        }
    }
}

pub open spec fn stars(n: nat) -> Seq<char> {
    Seq::new(n, |i: int| '*')
}

/// Whether a nonce, where it decodes, has 12 bytes.
fn fits(text: &str) -> (r: bool)
    ensures
        r == nonce_fits(text@),
{
    match b64_decode(text) {
        Ok(v) => v.len() == 12,
        Err(_) => true,
    }
}

// ---------------------------------------------------------------------------------------------
// Rotation
// ---------------------------------------------------------------------------------------------

/// The newest of the first `n` keys that opens the wrapped key, as the key that it holds.
pub open spec fn opened_by(keys: Seq<Seq<u8>>, n: nat, wrapped: Seq<u8>) -> Option<Seq<u8>>
    decreases n,
{
    if n == 0 {
        None
    } else {
        match master_key_in(keys[n - 1], wrapped) {
            Ok(k) => Some(k),
            Err(_) => opened_by(keys, (n - 1) as nat, wrapped),
        }
    }
}

/// The key that a rotation brings: wrapped, where it is, and else in the clear.
pub open spec fn rotation_key(keys: Seq<Seq<u8>>, kek: Seq<u8>, kek_enc: Seq<u8>) -> Option<Seq<u8>> {
    if kek_enc.len() > 0 {
        opened_by(keys, keys.len(), kek_enc)
    } else if kek.len() == 32 {
        Some(kek)
    } else {
        None
    }
}

/// The key that a rotation adds to the ring: nothing where it cannot be read or is already there.
pub fn rotation(ring: &KeyRing, kek: &Vec<u8>, kek_enc: &Vec<u8>) -> (r: Option<[u8; 32]>)
    ensures
        match r {
            Some(k) => rotation_key(ring@, kek@, kek_enc@) == Some(k@) && !ring@.contains(k@),
            None => match rotation_key(ring@, kek@, kek_enc@) {
                Some(k) => ring@.contains(k),
                None => true,
            },
        },
{
    let found: Option<[u8; 32]> = if kek_enc.len() > 0 {
        open_with_ring(ring, kek_enc)
    } else {
        as_key(kek)
    };
    match found {
        Some(k) => {
            if ring.holds(&k) {
                None
            } else {
                Some(k)
            }
        },
        None => None,
    }
}

fn open_with_ring(ring: &KeyRing, kek_enc: &Vec<u8>) -> (r: Option<[u8; 32]>)
    ensures
        match r {
            Some(k) => opened_by(ring@, ring@.len(), kek_enc@) == Some(k@),
            None => opened_by(ring@, ring@.len(), kek_enc@) is None,
        },
{
    let entries: &Vec<[u8; 32]> = ring.entries();
    let mut i: usize = entries.len();
    while i > 0
        invariant
            i <= entries@.len(),
            key_views(entries@) == ring@,
            opened_by(ring@, ring@.len(), kek_enc@) == opened_by(ring@, i as nat, kek_enc@),
        decreases i,
    {
        i = i - 1;
        assert(ring@[i as int] == entries@[i as int]@);
        match Cipher::unwrap_master_key(&entries[i], kek_enc) {
            Ok(k) => {
                return Some(k);
            },
            Err(_) => {},
        }
    }
    None
}

// ---------------------------------------------------------------------------------------------
// Keys on disk
// ---------------------------------------------------------------------------------------------

/// The name of the file of the ring, beside the file of the master key.
pub fn ring_file_name(key_file_name: &str) -> (r: String)
    ensures
        r@ == key_file_name@ + ".ring.json"@,
{
    let mut s: String = key_file_name.to_owned();
    s.append(".ring.json");
    s
}

/// The base64 texts of the keys.
pub open spec fn ring_texts(keys: Seq<Seq<u8>>) -> Seq<Seq<char>> {
    Seq::new(keys.len(), |i: int| b64_text(keys[i]))
}

/// The keys of a list of base64 texts, up to the first that is not one.
pub open spec fn ring_keys(list: Seq<Seq<char>>) -> Result<Seq<Seq<u8>>, Seq<char>>
    decreases list.len(),
{
    if list.len() == 0 {
        Ok(Seq::empty())
    } else {
        match ring_keys(list.drop_last()) {
            Err(e) => Err(e),
            Ok(keys) => match b64_bytes(list.last()) {
                Err(e) => Err("ring key: "@ + e),
                Ok(k) => if k.len() == 32 {
                    Ok(keys.push(k))
                } else {
                    Err("ring key must be 32 bytes"@)
                },
            },
        }
    }
}

/// The keys that the bytes of a ring file hold.
pub open spec fn ring_in(data: Seq<u8>) -> Result<Seq<Seq<u8>>, Seq<char>> {
    match string_list(data) {
        Err(e) => Err("parse ring: "@ + e),
        Ok(list) => ring_keys(list),
    }
}

/// The bytes of the ring file: a JSON list of base64 keys, the oldest first. Reading them gives the
/// ring back.
pub fn ring_bytes(ring: &KeyRing) -> (r: Vec<u8>)
    ensures
        r@ == string_list_bytes(ring_texts(ring@)),
        ring_in(r@) == Ok::<Seq<Seq<u8>>, Seq<char>>(ring@),
{
    let entries: &Vec<[u8; 32]> = ring.entries();
    let ghost keys = ring@;
    let mut list: Vec<String> = Vec::new();
    let mut i: usize = 0;
    assert(keys.take(0) =~= Seq::empty());
    assert(views(list@) =~= Seq::empty());
    while i < entries.len()
        invariant
            i <= entries@.len(),
            i == list@.len(),
            keys == key_views(entries@),
            views(list@) == ring_texts(keys.take(i as int)),
            ring_keys(views(list@)) == Ok::<Seq<Seq<u8>>, Seq<char>>(keys.take(i as int)),
        decreases entries@.len() - i,
    {
        let ghost before = views(list@);
        let text: String = b64_encode(entries[i].as_slice());
        let ghost t = text@;
        list.push(text);
        proof {
            assert(views(list@) =~= before.push(t));
            assert(views(list@).drop_last() =~= before);
            assert(keys.take(i + 1) =~= keys.take(i as int).push(keys[i as int]));
            assert(ring_texts(keys.take(i + 1)) =~= before.push(t));
        }
        i = i + 1;
    }
    assert(keys.take(i as int) =~= keys);
    write_string_list(&list)
}

/// An error in the first texts is the error of all.
proof fn lemma_ring_error(list: Seq<Seq<char>>, n: int)
    requires
        0 <= n <= list.len(),
        ring_keys(list.take(n)) is Err,
    ensures
        ring_keys(list) == ring_keys(list.take(n)),
    decreases list.len() - n,
{
    if n < list.len() {
        assert(list.take(n + 1).drop_last() =~= list.take(n));
        lemma_ring_error(list, n + 1);
    } else {
        assert(list.take(n) =~= list);
    }
}

/// The ring that a file holds; an empty one where there is no file.
pub fn load_ring(data: Option<&[u8]>) -> (r: Result<Vec<[u8; 32]>, CryptoError>)
    ensures
        match r {
            Ok(v) => match data {
                Some(d) => ring_in(d@) == Ok::<Seq<Seq<u8>>, Seq<char>>(key_views(v@)),
                None => v@.len() == 0,
            },
            Err(e) => data matches Some(d) && ring_in(d@) == Err::<Seq<Seq<u8>>, Seq<char>>(e@),
        },
{
    let mut out: Vec<[u8; 32]> = Vec::new();
    let raw: &[u8] = match data {
        Some(d) => d,
        None => {
            return Ok(out);
        },
    };
    let list: Vec<String> = match read_string_list(raw) {
        Ok(v) => v,
        Err(e) => {
            return Err(fail("parse ring: ", e.as_str()));
        },
    };
    let ghost all = views(list@);
    let mut i: usize = 0;
    assert(all.take(0) =~= Seq::empty());
    assert(key_views(out@) =~= Seq::empty());
    while i < list.len()
        invariant
            i <= list@.len(),
            all == views(list@),
            ring_in(raw@) == ring_keys(all),
            ring_keys(all.take(i as int)) == Ok::<Seq<Seq<u8>>, Seq<char>>(key_views(out@)),
            data == Some(raw),
        decreases list@.len() - i,
    {
        proof {
            assert(all.take(i + 1).drop_last() =~= all.take(i as int));
            assert(all.take(i + 1).last() == list@[i as int]@);
            if ring_keys(all.take(i + 1)) is Err {
                lemma_ring_error(all, i + 1);
            }
        }
        let bytes: Vec<u8> = match b64_decode(list[i].as_str()) {
            Ok(v) => v,
            Err(e) => {
                return Err(fail("ring key: ", e.as_str()));
            },
        };
        match as_key(&bytes) {
            Some(k) => {
                let ghost before = key_views(out@);
                out.push(k);
                assert(key_views(out@) =~= before.push(k@));
            },
            None => {
                return Err(fail_plain("ring key must be 32 bytes"));
            },
        }
        i = i + 1;
    }
    assert(all.take(i as int) =~= all);
    Ok(out)
}

/// The master key: from a base64 text, or else from the bytes of a file, or else none.
pub open spec fn master_key_from(env_key: Option<Seq<char>>, file: Option<Seq<u8>>) -> Result<
    Option<Seq<u8>>,
    Seq<char>,
> {
    match (env_key, file) {
        (Some(t), _) => match b64_bytes(t) {
            Err(e) => Err("DSH_MASTER_KEY base64: "@ + e),
            Ok(k) => if k.len() == 32 {
                Ok(Some(k))
            } else {
                Err("master key must be 32 bytes"@)
            },
        },
        (None, Some(k)) => if k.len() == 32 {
            Ok(Some(k))
        } else {
            Err("master key must be 32 bytes"@)
        },
        (None, None) => Ok(None),
    }
}

/// Loads the master key: from a base64 text, or else from the bytes of the key file, or else none.
pub fn load_master_key(env_key: Option<&str>, key_file: Option<Vec<u8>>) -> (r: Result<
    Option<[u8; 32]>,
    CryptoError,
>)
    ensures
        match r {
            Ok(Some(k)) => master_key_from(view_opt(env_key), view_opt(key_file)) == Ok::<
                Option<Seq<u8>>,
                Seq<char>,
            >(Some(k@)),
            Ok(None) => master_key_from(view_opt(env_key), view_opt(key_file)) == Ok::<
                Option<Seq<u8>>,
                Seq<char>,
            >(None),
            Err(e) => master_key_from(view_opt(env_key), view_opt(key_file)) == Err::<
                Option<Seq<u8>>,
                Seq<char>,
            >(e@),
        },
{
    let raw: Vec<u8> = match env_key {
        Some(t) => match b64_decode(t) {
            Ok(v) => v,
            Err(e) => {
                return Err(fail("DSH_MASTER_KEY base64: ", e.as_str()));
            },
        },
        None => match key_file {
            Some(v) => v,
            None => {
                return Ok(None);
            },
        },
    };
    match as_key(&raw) {
        Some(k) => Ok(Some(k)),
        None => Err(fail_plain("master key must be 32 bytes")),
    }
}

/// The keys of the ring that a node starts with: the master key, then those of the ring file that
/// differ from it.
pub open spec fn starting_keys(kek: Seq<u8>, loaded: Seq<Seq<u8>>) -> Seq<Seq<u8>>
    decreases loaded.len(),
{
    if loaded.len() == 0 {
        seq![kek]
    } else {
        let before = starting_keys(kek, loaded.drop_last());
        if loaded.last() == kek {
            before
        } else {
            before.push(loaded.last())
        }
    }
}

/// The ring that a node starts with. The ring file may hold the master key itself, which is not taken
/// twice.
pub fn starting_ring(kek: [u8; 32], loaded: Vec<[u8; 32]>) -> (r: KeyRing)
    ensures
        r@ == starting_keys(kek@, key_views(loaded@)),
{
    let mut ring: KeyRing = KeyRing::new(kek);
    let ghost all = key_views(loaded@);
    let mut i: usize = 0;
    assert(all.take(0) =~= Seq::empty());
    while i < loaded.len()
        invariant
            i <= loaded@.len(),
            all == key_views(loaded@),
            ring@ == starting_keys(kek@, all.take(i as int)),
        decreases loaded@.len() - i,
    {
        assert(all.take(i + 1).drop_last() =~= all.take(i as int));
        assert(all.take(i + 1).last() == loaded@[i as int]@);
        if !same_key(&loaded[i], &kek) {
            ring.push(loaded[i]);
        }
        i = i + 1;
    }
    assert(all.take(i as int) =~= all);
    ring
}

/// The key that a request to rotate brings: 32 bytes in base64.
pub open spec fn new_key_in(text: Seq<char>) -> Result<Seq<u8>, ErrorView> {
    match b64_bytes(text) {
        Err(e) => Err(validation_err("new_key base64: "@ + e)),
        Ok(k) => if k.len() == 32 {
            Ok(k)
        } else {
            Err(validation_err("new_key must be 32 bytes"@))
        },
    }
}

/// Reads the key of a request to rotate.
pub fn parse_new_key(text: &str) -> (r: Result<[u8; 32], Error>)
    ensures
        match r {
            Ok(k) => new_key_in(text@) == Ok::<Seq<u8>, ErrorView>(k@),
            Err(e) => new_key_in(text@) == Err::<Seq<u8>, ErrorView>(e@),
        },
{
    let raw: Vec<u8> = match b64_decode(text) {
        Ok(v) => v,
        Err(e) => {
            let mut m: String = "new_key base64: ".to_owned();
            m.append(e.as_str());
            return Err(Error::validation(m.as_str()));
        },
    };
    match as_key(&raw) {
        Some(k) => Ok(k),
        None => Err(Error::validation("new_key must be 32 bytes")),
    }
}

// ---------------------------------------------------------------------------------------------
// Laws
// ---------------------------------------------------------------------------------------------

/// Rotating the master key changes nothing for a ciphertext of a generation that the ring already had.
pub proof fn law_rotation_keeps_old_data_readable(
    keys: Seq<Seq<u8>>,
    new_kek: Seq<u8>,
    c: CiphertextView,
)
    requires
        1 <= c.dek_v <= keys.len(),
    ensures
        decrypted(keys.push(new_kek), c) == decrypted(keys, c),
{
}

/// Every key that the ring had is still in it, under its generation, after a rotation; the new one is
/// current.
pub proof fn law_rotation_keeps_generations(keys: Seq<Seq<u8>>, new_kek: Seq<u8>, generation: u64)
    requires
        1 <= generation <= keys.len(),
    ensures
        kek_at(keys.push(new_kek), generation) == kek_at(keys, generation),
        keys.push(new_kek).last() == new_kek,
{
}

} // verus!
