//! Decryption of package entries covered by a key store.

use vstd::prelude::*;
use crate::archive::ArchiveReader;
use crate::crypto::encryption::{aes_gcm_opened, decrypt_aes256gcm, key_length_message};
use crate::crypto::keys::KeyManager;
use crate::error::Lib3mfError;
use crate::model::secure_content::{AccessRight, KeyStore, ResourceDataGroup};
use rsa::RsaPrivateKey;

verus! {

/// The hexadecimal digit of a value below 16, in lower case.
pub open spec fn hex_char(d: nat) -> char {
    if d < 10 { ((d + 48) as u32) as char } else { ((d + 87) as u32) as char }
}

/// The last `n` hexadecimal digits of `u`, most significant first.
pub open spec fn hex_digits(u: nat, n: nat) -> Seq<char>
    decreases n,
{
    if n == 0 { Seq::empty() } else { hex_digits(u / 16, (n - 1) as nat).push(hex_char(u % 16)) }
}

/// A UUID in its hyphenated form: 32 lower-case hexadecimal digits in groups of 8, 4, 4,
/// 4 and 12.
pub open spec fn uuid_text(u: u128) -> Seq<char> {
    let d = hex_digits(u as nat, 32);
    d.subrange(0, 8) + "-"@ + d.subrange(8, 12) + "-"@ + d.subrange(12, 16) + "-"@ + d.subrange(16, 20) + "-"@
        + d.subrange(20, 32)
}

/// The hyphenated form of a UUID, as `uuid::Uuid`'s `Display` writes it.
#[verifier::external_body]
fn uuid_string(u: u128) -> (s: String)
    ensures
        s@ == uuid_text(u),
{
    uuid::Uuid::from_u128(u).to_string()
}

/// The key UUID of the first entry for `path`.
pub open spec fn key_for(map: Seq<(String, u128)>, path: Seq<char>) -> Option<u128>
    decreases map.len(),
{
    if map.len() == 0 {
        None
    } else if map[0].0@ == path {
        Some(map[0].1)
    } else {
        key_for(map.drop_first(), path)
    }
}

/// The first group of the key store for the key `uuid`.
pub open spec fn group_for(groups: Seq<ResourceDataGroup>, uuid: u128) -> Option<ResourceDataGroup>
    decreases groups.len(),
{
    if groups.len() == 0 {
        None
    } else if groups[0].key_uuid == uuid {
        Some(groups[0])
    } else {
        group_for(groups.drop_first(), uuid)
    }
}

/// The first access right of the consumer.
pub open spec fn right_for(rights: Seq<AccessRight>, consumer: Seq<char>) -> Option<AccessRight>
    decreases rights.len(),
{
    if rights.len() == 0 {
        None
    } else if rights[0].consumer_id@ == consumer {
        Some(rights[0])
    } else {
        right_for(rights.drop_first(), consumer)
    }
}

/// The cached content key of `uuid`.
pub open spec fn cached(cache: Seq<(u128, Seq<u8>)>, uuid: u128) -> Option<Seq<u8>>
    decreases cache.len(),
{
    if cache.len() == 0 {
        None
    } else if cache[0].0 == uuid {
        Some(cache[0].1)
    } else {
        cached(cache.drop_first(), uuid)
    }
}

/// Whether `p` is what decrypting the entry content `data` (nonce, then ciphertext with
/// tag) with the content key `cek` gives.
pub open spec fn decrypts_to(cek: Seq<u8>, data: Seq<u8>, p: Seq<u8>) -> bool {
    &&& data.len() >= 28
    &&& cek.len() == 32
    &&& aes_gcm_opened(cek, data.take(12), data.skip(12)) == Ok::<Seq<u8>, Seq<char>>(p)
}

/// What decrypting an encrypted entry's content `data` (a 12-byte nonce, then the ciphertext
/// with its tag) with the content key `cek` gives: `r` is that plaintext or the error.
pub open spec fn content_opened(cek: Seq<u8>, data: Seq<u8>, r: Result<Vec<u8>, Lib3mfError>) -> bool {
    if data.len() < 28 {
        r matches Err(Lib3mfError::Validation(m)) && m@ == "Encrypted file too short"@
    } else if cek.len() != 32 {
        r matches Err(Lib3mfError::Validation(m)) && m@ == key_length_message()
    } else {
        match aes_gcm_opened(cek, data.take(12), data.skip(12)) {
            Ok(p) => r matches Ok(v) && v@ == p,
            Err(x) => r matches Err(Lib3mfError::EncryptionError(m)) && m@ == "Decryption failed: "@ + x,
        }
    }
}

/// Whether the result of reading an encrypted entry is what decrypting its content `data`
/// with `cek` gives.
pub open spec fn entry_opened(cek: Seq<u8>, data: Seq<u8>, r: Result<Option<Vec<u8>>, Lib3mfError>) -> bool {
    match r {
        Ok(Some(v)) => content_opened(cek, data, Ok(v)),
        Ok(None) => false,
        Err(e) => content_opened(cek, data, Err(e)),
    }
}

/// Decrypts an encrypted entry's content: the first 12 bytes are the nonce, the rest the
/// ciphertext with its tag; content shorter than a nonce and a tag is an error.
pub fn decrypt_content(cek: &[u8], data: &[u8]) -> (r: Result<Vec<u8>, Lib3mfError>)
    ensures
        content_opened(cek@, data@, r),
{
    if data.len() < 28 {
        return Err(Lib3mfError::Validation(String::from_str("Encrypted file too short")));
    }
    let nonce = slice_bytes(data, 0, 12);
    let ciphertext = slice_bytes(data, 12, data.len());
    proof {
        assert(nonce@ =~= data@.take(12));
        assert(ciphertext@ =~= data@.skip(12));
    }
    decrypt_aes256gcm(cek, nonce.as_slice(), ciphertext.as_slice())
}

/// What decrypting package entries needs: the key store, the consumer's private key, which
/// entries are encrypted with which key, and the content keys already unwrapped.
pub struct SecureContext {
    keystore: KeyStore,
    private_key: RsaPrivateKey,
    cek_cache: Vec<(u128, Vec<u8>)>,
    resource_key_map: Vec<(String, u128)>,
    consumer_id: String,
}

impl SecureContext {
    /// The key store.
    pub closed spec fn keystore(&self) -> KeyStore {
        self.keystore
    }

    /// The content keys unwrapped so far, by key UUID.
    pub closed spec fn cache(&self) -> Seq<(u128, Seq<u8>)> {
        self.cek_cache@.map_values(|e: (u128, Vec<u8>)| (e.0, e.1@))
    }

    /// The key UUID of each encrypted entry path.
    pub closed spec fn key_map(&self) -> Seq<(String, u128)> {
        self.resource_key_map@
    }

    /// The consumer this context acts for.
    pub closed spec fn consumer(&self) -> Seq<char> {
        self.consumer_id@
    }

    /// A context with an empty key cache.
    pub fn new(keystore: KeyStore, private_key: RsaPrivateKey, resource_key_map: Vec<(String, u128)>, consumer_id: String) -> (r: Self)
        ensures
            r.keystore() == keystore,
            r.cache().len() == 0,
            r.key_map() == resource_key_map@,
            r.consumer() == consumer_id@,
    {
        let r = SecureContext { keystore, private_key, cek_cache: Vec::new(), resource_key_map, consumer_id };
        proof {
            assert(r.cache() =~= Seq::<(u128, Seq<u8>)>::empty());
        }
        r
    }

    /// Reads and decrypts the entry `path` when the key map covers it: `Ok(None)` when it
    /// does not; a validation error when the key store has no group for its key, when the
    /// consumer has no access right to that group (and its key is not cached), or when the
    /// entry is shorter than a nonce and a tag; else the content decrypted with the content
    /// key (unwrapped with the private key and cached, or taken from the cache). What the
    /// archive and the key unwrapping give is theirs: whatever they give, decrypted content
    /// is what the key, the nonce and the ciphertext of the entry give.
    #[verifier::spinoff_prover]
    #[verifier::rlimit(30)]
    pub fn decrypt_entry<A: ArchiveReader>(&mut self, archiver: &mut A, path: &str) -> (r: Result<Option<Vec<u8>>, Lib3mfError>)
        ensures
            final(self).keystore() == old(self).keystore(),
            final(self).key_map() == old(self).key_map(),
            final(self).consumer() == old(self).consumer(),
            key_for(old(self).key_map(), path@) is None ==> (r matches Ok(None) && final(self).cache() =~= old(self).cache()),
            key_for(old(self).key_map(), path@) is Some ==> ({
                let u = key_for(old(self).key_map(), path@)->Some_0;
                let g = group_for(old(self).keystore().resource_data_groups@, u);
                &&& g is None ==> (r matches Err(Lib3mfError::Validation(m))
                    && m@ == "KeyUUID "@ + uuid_text(u) + " not found in KeyStore"@)
                &&& g is Some && cached(old(self).cache(), u) is None && right_for(g->Some_0.access_rights@, old(self).consumer()) is None
                    ==> (r matches Err(Lib3mfError::Validation(m))
                        && m@ == "No access right for consumer "@ + old(self).consumer() + " in group "@ + uuid_text(u))
                &&& cached(old(self).cache(), u) is Some ==> final(self).cache() =~= old(self).cache()
                &&& cached(old(self).cache(), u) is None ==> (final(self).cache() =~= old(self).cache()
                    || final(self).cache() =~= old(self).cache().push((u, cached(final(self).cache(), u)->Some_0)))
            }),
            r is Ok && r->Ok_0 is Some ==> key_for(old(self).key_map(), path@) is Some
                && cached(final(self).cache(), key_for(old(self).key_map(), path@)->Some_0) is Some,
            r is Ok && r->Ok_0 is Some ==> (old(archiver).entry(path@) matches Some(data) && decrypts_to(
                cached(final(self).cache(), key_for(old(self).key_map(), path@)->Some_0)->Some_0, data, r->Ok_0->Some_0@)),
            forall|x: Seq<char>| #[trigger] final(archiver).entry(x) == old(archiver).entry(x),
            ({
                let u = key_for(old(self).key_map(), path@)->Some_0;
                let g = group_for(old(self).keystore().resource_data_groups@, u);
                (key_for(old(self).key_map(), path@) is Some && g is Some && cached(final(self).cache(), u) is Some)
                    ==> match old(archiver).entry(path@) {
                        None => r is Err,
                        Some(data) => entry_opened(cached(final(self).cache(), u)->Some_0, data, r),
                    }
            }),
    {
        let uuid = match self.find_key(path) {
            Some(u) => u,
            None => return Ok(None),
        };
        let group = match self.find_group(uuid) {
            Some(g) => g,
            None => {
                let m = String::from_str("KeyUUID ").concat(uuid_string(uuid).as_str()).concat(" not found in KeyStore");
                return Err(Lib3mfError::Validation(m));
            },
        };
        let ghost cache0 = self.cache();
        let cek = match self.find_cached(uuid) {
            Some(c) => c,
            None => {
                let right = match find_right(&self.keystore.resource_data_groups[group].access_rights, self.consumer_id.as_str()) {
                    Some(k) => k,
                    None => {
                        let m = String::from_str("No access right for consumer ").concat(self.consumer_id.as_str()).concat(
                            " in group ",
                        ).concat(uuid_string(uuid).as_str());
                        return Err(Lib3mfError::Validation(m));
                    },
                };
                let cek = KeyManager::unwrap_key(
                    &self.private_key,
                    self.keystore.resource_data_groups[group].access_rights[right].wrapped_key.as_slice(),
                )?;
                self.cek_cache.push((uuid, clone_bytes(&cek)));
                proof {
                    assert(self.cache() =~= cache0.push((uuid, cek@)));
                    lemma_cached_push(cache0, uuid, cek@);
                }
                cek
            },
        };
        let data = archiver.read_entry(path)?;
        let opened = decrypt_content(cek.as_slice(), data.as_slice());
        match opened {
            Ok(plaintext) => {
                proof {
                    assert(decrypts_to(cek@, data@, plaintext@));
                }
                Ok(Some(plaintext))
            },
            Err(e) => Err(e),
        }
    }

    fn find_key(&self, path: &str) -> (r: Option<u128>)
        ensures
            r == key_for(self.key_map(), path@),
    {
        let mut i: usize = 0;
        proof {
            assert(self.resource_key_map@.skip(0) =~= self.resource_key_map@);
        }
        while i < self.resource_key_map.len()
            invariant
                i <= self.resource_key_map@.len(),
                key_for(self.resource_key_map@, path@) == key_for(self.resource_key_map@.skip(i as int), path@),
            decreases self.resource_key_map@.len() - i,
        {
            proof {
                assert(self.resource_key_map@.skip(i as int).drop_first() =~= self.resource_key_map@.skip(i + 1));
            }
            if crate::text::same_text(self.resource_key_map[i].0.as_str(), path) {
                return Some(self.resource_key_map[i].1);
            }
            i = i + 1;
        }
        None
    }

    fn find_group(&self, uuid: u128) -> (r: Option<usize>)
        ensures
            match r {
                Some(g) => g < self.keystore.resource_data_groups@.len()
                    && group_for(self.keystore.resource_data_groups@, uuid) == Some(self.keystore.resource_data_groups@[g as int]),
                None => group_for(self.keystore.resource_data_groups@, uuid) is None,
            },
    {
        let groups = &self.keystore.resource_data_groups;
        let mut i: usize = 0;
        proof {
            assert(groups@.skip(0) =~= groups@);
        }
        while i < groups.len()
            invariant
                i <= groups@.len(),
                groups@ == self.keystore.resource_data_groups@,
                group_for(groups@, uuid) == group_for(groups@.skip(i as int), uuid),
            decreases groups@.len() - i,
        {
            proof {
                assert(groups@.skip(i as int).drop_first() =~= groups@.skip(i + 1));
                assert(groups@.skip(i as int)[0] == groups@[i as int]);
            }
            if groups[i].key_uuid == uuid {
                proof {
                    assert(group_for(groups@.skip(i as int), uuid) == Some(groups@[i as int]));
                }
                return Some(i);
            }
            i = i + 1;
        }
        None
    }

    fn find_cached(&self, uuid: u128) -> (r: Option<Vec<u8>>)
        ensures
            match r {
                Some(c) => cached(self.cache(), uuid) == Some(c@),
                None => cached(self.cache(), uuid) is None,
            },
    {
        let ghost cv = self.cache();
        let mut i: usize = 0;
        proof {
            assert(cv.skip(0) =~= cv);
        }
        while i < self.cek_cache.len()
            invariant
                i <= self.cek_cache@.len(),
                cv == self.cache(),
                cached(cv, uuid) == cached(cv.skip(i as int), uuid),
            decreases self.cek_cache@.len() - i,
        {
            proof {
                assert(cv.skip(i as int).drop_first() =~= cv.skip(i + 1));
                assert(cv.skip(i as int)[0] == (self.cek_cache@[i as int].0, self.cek_cache@[i as int].1@));
            }
            if self.cek_cache[i].0 == uuid {
                return Some(clone_bytes(&self.cek_cache[i].1));
            }
            i = i + 1;
        }
        None
    }
}

/// Adding a key for a UUID not cached makes it the cached one, and leaves the others.
proof fn lemma_cached_push(cache: Seq<(u128, Seq<u8>)>, u: u128, k: Seq<u8>)
    requires
        cached(cache, u) is None,
    ensures
        cached(cache.push((u, k)), u) == Some(k),
    decreases cache.len(),
{
    if cache.len() > 0 {
        assert(cache.push((u, k)).drop_first() =~= cache.drop_first().push((u, k)));
        lemma_cached_push(cache.drop_first(), u, k);
    }
}

/// The first access right of the consumer.
fn find_right(rights: &Vec<AccessRight>, consumer: &str) -> (r: Option<usize>)
    ensures
        match r {
            Some(k) => k < rights@.len() && right_for(rights@, consumer@) == Some(rights@[k as int]),
            None => right_for(rights@, consumer@) is None,
        },
{
    let mut i: usize = 0;
    proof {
        assert(rights@.skip(0) =~= rights@);
    }
    while i < rights.len()
        invariant
            i <= rights@.len(),
            right_for(rights@, consumer@) == right_for(rights@.skip(i as int), consumer@),
        decreases rights@.len() - i,
    {
        proof {
            assert(rights@.skip(i as int).drop_first() =~= rights@.skip(i + 1));
            assert(rights@.skip(i as int)[0] == rights@[i as int]);
        }
        if crate::text::same_text(rights[i].consumer_id.as_str(), consumer) {
            return Some(i);
        }
        i = i + 1;
    }
    None
}

fn clone_bytes(v: &Vec<u8>) -> (r: Vec<u8>)
    ensures
        r@ == v@,
{
    let mut r: Vec<u8> = Vec::new();
    let mut i: usize = 0;
    while i < v.len()
        invariant
            i <= v@.len(),
            r@ == v@.take(i as int),
        decreases v@.len() - i,
    {
        r.push(v[i]);
        proof {
            assert(v@.take(i + 1) =~= v@.take(i as int).push(v@[i as int]));
        }
        i = i + 1;
    }
    proof {
        assert(v@.take(v@.len() as int) =~= v@);
    }
    r
}

fn slice_bytes(v: &[u8], from: usize, to: usize) -> (r: Vec<u8>)
    requires
        from <= to <= v@.len(),
    ensures
        r@ == v@.subrange(from as int, to as int),
{
    let mut r: Vec<u8> = Vec::new();
    let mut i: usize = from;
    while i < to
        invariant
            from <= i <= to,
            to <= v@.len(),
            r@ == v@.subrange(from as int, i as int),
        decreases to - i,
    {
        r.push(v[i]);
        proof {
            assert(v@.subrange(from as int, i + 1) =~= v@.subrange(from as int, i as int).push(v@[i as int]));
        }
        i = i + 1;
    }
    r
}

} // verus!
