//! The secret store: signing keys kept under wallet names, in the clear or
//! sealed under a password.

use vstd::prelude::*;
use vstd::string::StringSliceAdditionalSpecFns;
use crate::names::NameTable;
use crate::chain::chain_random_fill;
use crate::signer::{key_of_bytes, lemma_key_of_bytes, Ed25519SK};
use crate::table::{distinct_keys, lemma_upserted, lookup, upserted, Entry};
use crate::hashes::clone_bytes;

verus! {

/// The raw Argon2id hash (version 1.3, no secret, no associated data) of a
/// password; `None` where the parameters are refused.
pub uninterp spec fn argon2id_raw(
    pwd: Seq<u8>,
    salt: Seq<u8>,
    hash_length: u32,
    lanes: u32,
    mem_cost: u32,
    time_cost: u32,
) -> Option<Seq<u8>>;

/// What ChaCha20-Poly1305 (IETF) seals a plaintext into: the ciphertext
/// followed by the tag; `None` where key or nonce have the wrong length.
pub uninterp spec fn chacha20poly1305_sealed(
    plaintext: Seq<u8>,
    ad: Seq<u8>,
    key: Seq<u8>,
    nonce: Seq<u8>,
) -> Option<Seq<u8>>;

/// What ChaCha20-Poly1305 (IETF) opens a sealed text into; `None` where
/// the tag does not match or a length is wrong.
pub uninterp spec fn chacha20poly1305_opened(
    sealed: Seq<u8>,
    ad: Seq<u8>,
    key: Seq<u8>,
    nonce: Seq<u8>,
) -> Option<Seq<u8>>;

/// The parameters that Argon2 accepts: at least 8 KiB of memory for each
/// lane, at least one pass, a salt of at least 8 bytes, an output of at
/// least 4 bytes, and lengths that fit in 32 bits. On a machine with
/// 32-bit addresses the memory is capped at 2 GiB.
pub open spec fn argon2_accepts(
    pwd_len: nat,
    salt_len: nat,
    hash_length: u32,
    lanes: u32,
    mem_cost: u32,
    time_cost: u32,
) -> bool {
    &&& 1 <= lanes <= 0xFF_FFFF
    &&& 8 <= mem_cost
    &&& 8 * lanes <= mem_cost
    &&& (usize::BITS == 64 || mem_cost <= 0x20_0000)
    &&& 1 <= time_cost
    &&& pwd_len <= 0xFFFF_FFFF
    &&& 8 <= salt_len <= 0xFFFF_FFFF
    &&& 4 <= hash_length
}

/// Calls `argon2::hash_raw` with the Argon2id variant, version 1.3, one
/// thread, no secret and no associated data. The source refuses exactly
/// the parameters that `argon2_accepts` leaves out, and returns
/// `hash_length` bytes. It allocates all of the memory at once and makes
/// every pass over it, so that the costs have to be affordable.
#[verifier::external_body]
fn argon2id(pwd: &[u8], salt: &Vec<u8>, hash_length: u32, lanes: u32, mem_cost: u32, time_cost: u32) -> (r:
    Option<Vec<u8>>)
    requires
        argon2_affordable(mem_cost, time_cost),
    ensures
        r is Some <==> argon2_accepts(
            pwd@.len(),
            salt@.len(),
            hash_length,
            lanes,
            mem_cost,
            time_cost,
        ),
        match r {
            Some(k) => argon2id_raw(pwd@, salt@, hash_length, lanes, mem_cost, time_cost) == Some(
                k@,
            ) && k@.len() == hash_length,
            None => argon2id_raw(pwd@, salt@, hash_length, lanes, mem_cost, time_cost) is None,
        },
{
    let cfg = argon2::Config {
        ad: &[],
        hash_length,
        lanes,
        mem_cost,
        secret: &[],
        thread_mode: argon2::ThreadMode::Sequential,
        time_cost,
        variant: argon2::Variant::Argon2id,
        version: argon2::Version::Version13,
    };
    argon2::hash_raw(pwd, salt, &cfg).ok()
}

/// Calls `seal_to` of `crypto_api_chachapoly::ChachaPolyIetf`, which writes
/// the sealed plaintext at the start of `buf` and returns its length, 16
/// more than the plaintext's. It fails on a key that is not 32 bytes, a
/// nonce that is not 12, a plaintext over the limit or a buffer too
/// small. What it seals, `open_to` opens into the plaintext: the tag is
/// recomputed from the same bytes and the same key stream is applied.
#[verifier::external_body]
fn aead_seal(buf: &mut Vec<u8>, plaintext: &[u8; 64], ad: &Vec<u8>, key: &Vec<u8>, nonce: &[u8; 12]) -> (r:
    Option<usize>)
    ensures
        final(buf)@.len() == old(buf)@.len(),
        r is Some <==> key@.len() == 32 && old(buf)@.len() >= 80,
        r matches Some(n) ==> n == 80 && chacha20poly1305_sealed(
            plaintext@,
            ad@,
            key@,
            nonce@,
        ) == Some(final(buf)@.subrange(0, 80)) && chacha20poly1305_opened(
            final(buf)@.subrange(0, 80),
            ad@,
            key@,
            nonce@,
        ) == Some(plaintext@),
{
    crypto_api_chachapoly::ChachaPolyIetf::aead_cipher().seal_to(buf, plaintext, ad, key, nonce).ok()
}

/// Calls `open_to` of `crypto_api_chachapoly::ChachaPolyIetf`, which checks
/// the tag and writes the plaintext at the start of `out`. It fails where
/// the sealed text does not open, and where the plaintext would not fit
/// in `out`.
#[verifier::external_body]
fn aead_open(out: &mut [u8; 64], sealed: &Vec<u8>, ad: &Vec<u8>, key: &Vec<u8>, nonce: &[u8; 12]) -> (r:
    Option<usize>)
    ensures
        match chacha20poly1305_opened(sealed@, ad@, key@, nonce@) {
            Some(plain) => if plain.len() <= 64 {
                r == Some(plain.len() as usize) && final(out)@ == plain + old(out)@.subrange(
                    plain.len() as int,
                    64,
                )
            } else {
                r is None
            },
            None => r is None,
        },
{
    crypto_api_chachapoly::ChachaPolyIetf::aead_cipher().open_to(out, sealed, ad, key, nonce).ok()
}

/// The memory that key derivation uses, in KiB: 32 MiB.
pub const ARGON2_MEM_COST: u32 = 32768;

/// The number of passes of key derivation.
pub const ARGON2_TIME_COST: u32 = 10;

/// The most memory that a record may ask key derivation for, in KiB:
/// 1 GiB.
pub const ARGON2_MEM_LIMIT: u32 = 0x10_0000;

/// The most passes that a record may ask key derivation for.
pub const ARGON2_TIME_LIMIT: u32 = 1024;

/// Whether key derivation at these costs is carried out: a record that
/// asks for more memory or more passes is not opened.
pub open spec fn argon2_affordable(mem_cost: u32, time_cost: u32) -> bool {
    mem_cost <= ARGON2_MEM_LIMIT && time_cost <= ARGON2_TIME_LIMIT
}

/// The nonce of every sealed key: twelve zero bytes.
pub open spec fn zero_nonce() -> Seq<u8> {
    Seq::new(12, |i: int| 0u8)
}

/// A signing key sealed under a password, as contracts see it.
pub struct EncryptedSKView {
    pub argon2id_salt: Seq<u8>,
    pub argon2id_mem_cost: u32,
    pub argon2id_time_cost: u32,
    pub cp20p1350_ciphertext: Seq<u8>,
}

impl EncryptedSKView {
    /// The key that `pwd` opens the record into: the sealed bytes, filled
    /// up with zeros where they are fewer than 64. `None` where the
    /// costs are not affordable, the parameters are refused, the record
    /// does not open under the password, or it holds more than 64 bytes.
    pub open spec fn decrypt(self, pwd: Seq<u8>) -> Option<Ed25519SK> {
        if !argon2_affordable(self.argon2id_mem_cost, self.argon2id_time_cost) {
            None
        } else {
            match argon2id_raw(
                pwd,
                self.argon2id_salt,
                32,
                1,
                self.argon2id_mem_cost,
                self.argon2id_time_cost,
            ) {
                None => None,
                Some(key) => match chacha20poly1305_opened(
                    self.cp20p1350_ciphertext,
                    Seq::empty(),
                    key,
                    zero_nonce(),
                ) {
                    Some(plain) => if plain.len() <= 64 {
                        Some(
                            key_of_bytes(plain + Seq::new((64 - plain.len()) as nat, |i: int| 0u8)),
                        )
                    } else {
                        None
                    },
                    None => None,
                },
            }
        }
    }
}

/// What sealing `sk` under `pwd` with the given salt records; `None`
/// where the password is longer than Argon2 accepts.
pub open spec fn sealed_record(sk: Ed25519SK, pwd: Seq<u8>, salt: Seq<u8>) -> Option<
    EncryptedSKView,
> {
    match argon2id_raw(pwd, salt, 32, 1, ARGON2_MEM_COST, ARGON2_TIME_COST) {
        None => None,
        Some(key) => match chacha20poly1305_sealed(sk.0@, Seq::empty(), key, zero_nonce()) {
            None => None,
            Some(sealed) => Some(
                EncryptedSKView {
                    argon2id_salt: salt,
                    argon2id_mem_cost: ARGON2_MEM_COST,
                    argon2id_time_cost: ARGON2_TIME_COST,
                    cp20p1350_ciphertext: sealed,
                },
            ),
        },
    }
}

/// A signing key sealed under a password: the salt and the costs of the
/// key derivation, and the sealed key with its tag.
#[derive(Clone, Debug)]
pub struct EncryptedSK {
    argon2id_salt: Vec<u8>,
    argon2id_mem_cost: u32,
    argon2id_time_cost: u32,
    cp20p1350_ciphertext: Vec<u8>,
}

impl View for EncryptedSK {
    type V = EncryptedSKView;

    closed spec fn view(&self) -> EncryptedSKView {
        EncryptedSKView {
            argon2id_salt: self.argon2id_salt@,
            argon2id_mem_cost: self.argon2id_mem_cost,
            argon2id_time_cost: self.argon2id_time_cost,
            cp20p1350_ciphertext: self.cp20p1350_ciphertext@,
        }
    }
}

impl EncryptedSK {
    /// A record from its stored fields.
    pub fn from_parts(salt: Vec<u8>, mem_cost: u32, time_cost: u32, ciphertext: Vec<u8>) -> (r:
        EncryptedSK)
        ensures
            r@ == (EncryptedSKView {
                argon2id_salt: salt@,
                argon2id_mem_cost: mem_cost,
                argon2id_time_cost: time_cost,
                cp20p1350_ciphertext: ciphertext@,
            }),
    {
        EncryptedSK {
            argon2id_salt: salt,
            argon2id_mem_cost: mem_cost,
            argon2id_time_cost: time_cost,
            cp20p1350_ciphertext: ciphertext,
        }
    }

    /// The salt of the key derivation.
    pub fn salt(&self) -> (r: Vec<u8>)
        ensures
            r@ == self@.argon2id_salt,
    {
        clone_bytes(&self.argon2id_salt)
    }

    /// The memory cost of the key derivation, in KiB.
    pub fn mem_cost(&self) -> (r: u32)
        ensures
            r == self@.argon2id_mem_cost,
    {
        self.argon2id_mem_cost
    }

    /// The number of passes of the key derivation.
    pub fn time_cost(&self) -> (r: u32)
        ensures
            r == self@.argon2id_time_cost,
    {
        self.argon2id_time_cost
    }

    /// The sealed key with its tag.
    pub fn ciphertext(&self) -> (r: Vec<u8>)
        ensures
            r@ == self@.cp20p1350_ciphertext,
    {
        clone_bytes(&self.cp20p1350_ciphertext)
    }

    /// A copy of the record.
    pub fn duplicate(&self) -> (r: EncryptedSK)
        ensures
            r@ == self@,
    {
        EncryptedSK {
            argon2id_salt: clone_bytes(&self.argon2id_salt),
            argon2id_mem_cost: self.argon2id_mem_cost,
            argon2id_time_cost: self.argon2id_time_cost,
            cp20p1350_ciphertext: clone_bytes(&self.cp20p1350_ciphertext),
        }
    }

    /// Seals `sk` under `pwd` with the given salt: derives a 32-byte key
    /// with Argon2id and seals the 64 bytes of `sk` with
    /// ChaCha20-Poly1305 under a zero nonce. The record opens into `sk`
    /// under the same password.
    pub fn with_salt(sk: Ed25519SK, pwd: &str, salt: [u8; 16]) -> (r: Option<EncryptedSK>)
        ensures
            r is Some <==> pwd.spec_bytes().len() <= 0xFFFF_FFFF,
            match r {
                Some(rec) => sealed_record(sk, pwd.spec_bytes(), salt@) == Some(rec@)
                    && rec@.decrypt(pwd.spec_bytes()) == Some(sk)
                    && rec@.cp20p1350_ciphertext.len() == 80,
                None => sealed_record(sk, pwd.spec_bytes(), salt@) is None,
            },
    {
        let mut salt_bytes: Vec<u8> = Vec::new();
        let mut i: usize = 0;
        while i < 16
            invariant
                i <= 16,
                salt_bytes@ == salt@.take(i as int),
            decreases 16 - i,
        {
            salt_bytes.push(salt[i]);
            assert(salt@.take(i as int + 1) == salt@.take(i as int).push(salt@[i as int]));
            i += 1;
        }
        assert(salt@.take(16) == salt@);
        let key = match argon2id(
            pwd.as_bytes(),
            &salt_bytes,
            32,
            1,
            ARGON2_MEM_COST,
            ARGON2_TIME_COST,
        ) {
            Some(k) => k,
            None => {
                return None;
            },
        };
        let mut buf: Vec<u8> = vec![0u8;80];
        let nonce = [0u8;12];
        let ad: Vec<u8> = Vec::new();
        assert(nonce@ =~= zero_nonce());
        assert(ad@ =~= Seq::empty());
        match aead_seal(&mut buf, &sk.0, &ad, &key, &nonce) {
            Some(_) => {
                assert(buf@.subrange(0, 80) =~= buf@);
                proof {
                    assert(sk.0@ + Seq::new(0nat, |i: int| 0u8) =~= sk.0@);
                    lemma_key_of_bytes(sk);
                }
                Some(
                    EncryptedSK {
                        argon2id_salt: salt_bytes,
                        argon2id_mem_cost: ARGON2_MEM_COST,
                        argon2id_time_cost: ARGON2_TIME_COST,
                        cp20p1350_ciphertext: buf,
                    },
                )
            },
            None => None,
        }
    }

    /// Seals `sk` under `pwd` with a fresh random salt. The record opens
    /// into `sk` under the same password. `None` where the system's
    /// random source fails or the password is longer than Argon2 accepts.
    pub fn new(sk: Ed25519SK, pwd: &str) -> (r: Option<EncryptedSK>)
        ensures
            r matches Some(rec) ==> rec@.decrypt(pwd.spec_bytes()) == Some(sk)
                && rec@.argon2id_salt.len() == 16 && sealed_record(
                sk,
                pwd.spec_bytes(),
                rec@.argon2id_salt,
            ) == Some(rec@),
            r is Some ==> pwd.spec_bytes().len() <= 0xFFFF_FFFF,
    {
        let mut drawn: Vec<u8> = vec![0u8;16];
        if !chain_random_fill(&mut drawn) {
            return None;
        }
        let mut salt = [0u8;16];
        let mut i: usize = 0;
        while i < 16
            invariant
                i <= 16,
                drawn@.len() == 16,
            decreases 16 - i,
        {
            salt[i] = drawn[i];
            i += 1;
        }
        EncryptedSK::with_salt(sk, pwd, salt)
    }

    /// Opens the record with a password.
    pub fn decrypt(&self, pwd: &str) -> (r: Option<Ed25519SK>)
        ensures
            r == self@.decrypt(pwd.spec_bytes()),
    {
        if self.argon2id_mem_cost > ARGON2_MEM_LIMIT || self.argon2id_time_cost > ARGON2_TIME_LIMIT {
            return None;
        }
        let key = match argon2id(
            pwd.as_bytes(),
            &self.argon2id_salt,
            32,
            1,
            self.argon2id_mem_cost,
            self.argon2id_time_cost,
        ) {
            Some(k) => k,
            None => {
                return None;
            },
        };
        let mut out = [0u8;64];
        let nonce = [0u8;12];
        let ad: Vec<u8> = Vec::new();
        assert(nonce@ =~= zero_nonce());
        assert(ad@ =~= Seq::empty());
        let ghost zeros = out@;
        match aead_open(&mut out, &self.cp20p1350_ciphertext, &ad, &key, &nonce) {
            Some(n) => {
                proof {
                    let plain = chacha20poly1305_opened(
                        self.cp20p1350_ciphertext@,
                        ad@,
                        key@,
                        nonce@,
                    )->0;
                    assert(zeros.subrange(plain.len() as int, 64) =~= Seq::new(
                        (64 - plain.len()) as nat,
                        |i: int| 0u8,
                    ));
                    lemma_key_of_bytes(Ed25519SK(out));
                }
                Some(Ed25519SK(out))
            },
            None => None,
        }
    }
}

/// A persistent signing secret, as contracts see it.
pub enum PersistentSecretView {
    Plaintext(Ed25519SK),
    PasswordEncrypted(EncryptedSKView),
}

/// A persistent signing secret: a key in the clear or a key sealed under a
/// password.
#[derive(Clone, Debug)]
pub enum PersistentSecret {
    Plaintext(Ed25519SK),
    PasswordEncrypted(EncryptedSK),
}

impl View for PersistentSecret {
    type V = PersistentSecretView;

    open spec fn view(&self) -> PersistentSecretView {
        match *self {
            PersistentSecret::Plaintext(sk) => PersistentSecretView::Plaintext(sk),
            PersistentSecret::PasswordEncrypted(e) => PersistentSecretView::PasswordEncrypted(e@),
        }
    }
}

impl PersistentSecretView {
    /// The key that the secret gives up under a password: the key itself
    /// where it is in the clear, else what the password opens.
    pub open spec fn unlock(self, pwd: Seq<u8>) -> Option<Ed25519SK> {
        match self {
            PersistentSecretView::Plaintext(sk) => Some(sk),
            PersistentSecretView::PasswordEncrypted(e) => e.decrypt(pwd),
        }
    }
}

impl PersistentSecret {
    /// A copy of the secret.
    pub fn duplicate(&self) -> (r: PersistentSecret)
        ensures
            r@ == self@,
    {
        match self {
            PersistentSecret::Plaintext(sk) => PersistentSecret::Plaintext(*sk),
            PersistentSecret::PasswordEncrypted(e) => PersistentSecret::PasswordEncrypted(
                e.duplicate(),
            ),
        }
    }

    /// The key that the secret gives up under a password.
    pub fn unlock(&self, pwd: &str) -> (r: Option<Ed25519SK>)
        ensures
            r == self@.unlock(pwd.spec_bytes()),
    {
        match self {
            PersistentSecret::Plaintext(sk) => Some(*sk),
            PersistentSecret::PasswordEncrypted(e) => e.decrypt(pwd),
        }
    }
}

/// The secrets of a daemon by wallet name.
pub struct SecretStore {
    secrets: NameTable<PersistentSecret>,
}

impl View for SecretStore {
    type V = Seq<Entry<Seq<char>, PersistentSecretView>>;

    closed spec fn view(&self) -> Seq<Entry<Seq<char>, PersistentSecretView>> {
        self.secrets@
    }
}

impl SecretStore {
    /// The store's invariant: no name occurs twice.
    pub closed spec fn wf(&self) -> bool {
        self.secrets.wf()
    }

    /// What `wf` says.
    pub proof fn lemma_wf(&self)
        ensures
            self.wf() == distinct_keys(self@),
    {
        self.secrets.lemma_wf();
    }

    /// A store without secrets.
    pub fn open() -> (s: SecretStore)
        ensures
            s.wf(),
            s@.len() == 0,
    {
        SecretStore { secrets: NameTable::new() }
    }

    /// Stores a secret under a name, in place of the one that was there.
    pub fn store(&mut self, name: String, secret: PersistentSecret)
        requires
            old(self).wf(),
        ensures
            final(self).wf(),
            final(self)@ == upserted(old(self)@, Entry { key: name@, value: secret@ }),
            lookup(final(self)@, name@) == Some(secret@),
    {
        proof {
            self.secrets.lemma_wf();
            lemma_upserted(self@, Entry { key: name@, value: secret@ });
        }
        self.secrets.put(name, secret);
    }

    /// The secret stored under a name, if there is one.
    pub fn load(&self, name: &str) -> (r: Option<PersistentSecret>)
        requires
            self.wf(),
        ensures
            match r {
                Some(s) => lookup(self@, name@) == Some(s@),
                None => lookup(self@, name@) is None,
            },
    {
        match self.secrets.get(name) {
            Some(s) => Some(s.duplicate()),
            None => None,
        }
    }

    /// The number of secrets.
    pub fn len(&self) -> (n: usize)
        ensures
            n == self@.len(),
    {
        self.secrets.len()
    }

    /// The name and the secret at index `i`, in the order of first storing.
    pub fn entry_at(&self, i: usize) -> (r: (String, PersistentSecret))
        requires
            i < self@.len(),
        ensures
            r.0@ == self@[i as int].key,
            r.1@ == self@[i as int].value,
    {
        (self.secrets.name_at(i), self.secrets.value_at(i).duplicate())
    }
}

} // verus!
