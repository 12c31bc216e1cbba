use vstd::prelude::*;
use vstd::slice::slice_subrange;
use vstd::slice::slice_index_get;
use vstd::string::StrSliceExecFns;
use vstd::string::StringExecFns;
use crate::errors::BlogError;
use sha2::Digest;

verus! {

/// The SHA-256 digest of a byte buffer, as the sha2 crate computes it.
pub uninterp spec fn sha256_of(bytes: Seq<u8>) -> Seq<u8>;

/// The base58 rendering of a byte buffer, as the bs58 crate computes it
/// with its default alphabet.
pub uninterp spec fn base58_of(bytes: Seq<u8>) -> Seq<char>;

/// Relies on sha2::Sha256::digest: the digest is 32 bytes and depends on
/// the input bytes alone.
#[verifier::external_body]
fn sha256_digest(bytes: &[u8]) -> (r: Vec<u8>)
    ensures
        r@ == sha256_of(bytes@),
        r@.len() == 32,
{
    sha2::Sha256::digest(bytes).to_vec()
}

/// Whether a character belongs to the Bitcoin base58 alphabet: digits and
/// letters with the ambiguous `0`, `O`, `I` and `l` left out.
pub open spec fn is_base58_char(c: char) -> bool {
    ('1' <= c && c <= '9') || ('A' <= c && c <= 'Z' && c != 'I' && c != 'O') || ('a' <= c && c
        <= 'z' && c != 'l')
}

/// Relies on bs58::encode with its default (Bitcoin) alphabet: the rendering
/// depends on the input bytes alone, uses no padding, draws every character
/// from that alphabet, and is no longer than the crate's own worst-case
/// bound of one and a half characters per input byte.
#[verifier::external_body]
fn base58_encode(bytes: &[u8]) -> (r: String)
    ensures
        r@ == base58_of(bytes@),
        r@.len() <= bytes@.len() + (bytes@.len() + 1) / 2,
        forall|i: int| 0 <= i < r@.len() ==> is_base58_char(r@[i]),
{
    bs58::encode(bytes).into_string()
}

/// The hash part of an asset identifier: base58 of the first 16 bytes of
/// the content's SHA-256 digest.
pub open spec fn hash_string_of(bytes: Seq<u8>) -> Seq<char> {
    base58_of(sha256_of(bytes).take(16))
}

pub fn create_hash_string(bytes: &[u8]) -> (r: String)
    ensures
        r@ == hash_string_of(bytes@),
        r@.len() <= 24,
        forall|i: int| 0 <= i < r@.len() ==> is_base58_char(r@[i]),
{
    let digest = sha256_digest(bytes);
    let prefix = slice_subrange(digest.as_slice(), 0, 16);
    proof {
        assert(prefix@ =~= sha256_of(bytes@).take(16));
    }
    base58_encode(prefix)
}

/// The identifier an asset gets: `{name}-{hash}{ext}`, with the hash
/// derived from the content alone.
pub open spec fn asset_identifier(name: Seq<char>, ext: Seq<char>, bytes: Seq<u8>) -> Seq<char> {
    name + seq!['-'] + hash_string_of(bytes) + ext
}

/// The reference path handed back for an identifier: `/static/{id}`.
pub open spec fn static_path_of(id: Seq<char>) -> Seq<char> {
    seq!['/', 's', 't', 'a', 't', 'i', 'c', '/'] + id
}

/// Builds the identifier string for one asset.
pub fn make_identifier(name: &str, ext: &str, bytes: &[u8]) -> (r: String)
    ensures
        r@ == asset_identifier(name@, ext@, bytes@),
{
    let mut id = name.to_owned();
    id.append("-");
    proof {
        reveal_strlit("-");
        assert("-"@ =~= seq!['-']);
    }
    let h = create_hash_string(bytes);
    id.append(h.as_str());
    id.append(ext);
    proof {
        assert(id@ =~= asset_identifier(name@, ext@, bytes@));
    }
    id
}

fn prefix_static(id: &str) -> (r: String)
    ensures
        r@ == static_path_of(id@),
{
    let mut r = "/static/".to_owned();
    proof {
        reveal_strlit("/static/");
        assert("/static/"@ =~= seq!['/', 's', 't', 'a', 't', 'i', 'c', '/']);
    }
    r.append(id);
    proof {
        assert(r@ =~= static_path_of(id@));
    }
    r
}

/// Character-for-character string equality.
pub fn str_eq(a: &str, b: &str) -> (r: bool)
    ensures
        r == (a@ == b@),
{
    let an = a.unicode_len();
    let bn = b.unicode_len();
    if an != bn {
        proof {
            assert(a@ != b@) by {
                assert(a@.len() != b@.len());
            }
        }
        return false;
    }
    let mut i: usize = 0;
    while i < an
        invariant
            an == a@.len(),
            a@.len() == b@.len(),
            i <= an,
            forall|j: int| 0 <= j < i ==> a@[j] == b@[j],
        decreases an - i,
    {
        if a.get_char(i) != b.get_char(i) {
            proof {
                assert(a@ != b@) by {
                    assert(a@[i as int] != b@[i as int]);
                }
            }
            return false;
        }
        i += 1;
    }
    proof {
        assert(a@ =~= b@);
    }
    true
}

fn bytes_eq(a: &[u8], b: &[u8]) -> (r: bool)
    ensures
        r == (a@ == b@),
{
    if a.len() != b.len() {
        proof {
            assert(a@ != b@) by {
                assert(a@.len() != b@.len());
            }
        }
        return false;
    }
    let mut i: usize = 0;
    while i < a.len()
        invariant
            i <= a@.len(),
            a@.len() == b@.len(),
            forall|j: int| 0 <= j < i ==> a@[j] == b@[j],
        decreases a@.len() - i,
    {
        if *slice_index_get(a, i) != *slice_index_get(b, i) {
            proof {
                assert(a@ != b@) by {
                    assert(a@[i as int] != b@[i as int]);
                }
            }
            return false;
        }
        i += 1;
    }
    proof {
        assert(a@ =~= b@);
    }
    true
}

/// One stored asset: its content-addressed identifier and its bytes.
pub struct Asset {
    pub identifier: String,
    pub bytes: Vec<u8>,
}

/// The content-hash asset store: assets in registration order, with no two
/// assets sharing an identifier.
pub struct AssetStore {
    assets: Vec<Asset>,
}

/// Whether some entry carries the identifier.
pub open spec fn has_id(es: Seq<(Seq<char>, Seq<u8>)>, id: Seq<char>) -> bool {
    exists|i: int| 0 <= i < es.len() && es[i].0 == id
}

/// Whether some entry carries the identifier with exactly these bytes.
pub open spec fn has_entry(es: Seq<(Seq<char>, Seq<u8>)>, id: Seq<char>, bytes: Seq<u8>) -> bool {
    exists|i: int| 0 <= i < es.len() && es[i].0 == id && es[i].1 == bytes
}

/// No two entries share an identifier.
pub open spec fn ids_unique(es: Seq<(Seq<char>, Seq<u8>)>) -> bool {
    forall|i: int, j: int| 0 <= i < j < es.len() ==> es[i].0 != es[j].0
}

/// What registering does to the store's contents: a no-op when the
/// identifier is already present, a single appended entry otherwise.
pub open spec fn entries_after_register(
    es: Seq<(Seq<char>, Seq<u8>)>,
    name: Seq<char>,
    ext: Seq<char>,
    bytes: Seq<u8>,
) -> Seq<(Seq<char>, Seq<u8>)> {
    let id = asset_identifier(name, ext, bytes);
    if has_id(es, id) {
        es
    } else {
        es.push((id, bytes))
    }
}

/// Whether registering these bytes would hit an entry with the same
/// identifier but different bytes.
pub open spec fn register_conflicts(
    es: Seq<(Seq<char>, Seq<u8>)>,
    name: Seq<char>,
    ext: Seq<char>,
    bytes: Seq<u8>,
) -> bool {
    let id = asset_identifier(name, ext, bytes);
    exists|i: int| 0 <= i < es.len() && es[i].0 == id && es[i].1 != bytes
}

impl AssetStore {
    /// The store's contents: identifier and bytes of each asset, in
    /// registration order.
    pub closed spec fn entries(&self) -> Seq<(Seq<char>, Seq<u8>)> {
        self.assets@.map_values(|a: Asset| (a.identifier@, a.bytes@))
    }

    /// Well-formedness: identifiers are pairwise distinct.
    pub open spec fn wf(&self) -> bool {
        ids_unique(self.entries())
    }

    pub fn new() -> (s: Self)
        ensures
            s.wf(),
            s.entries() == Seq::<(Seq<char>, Seq<u8>)>::empty(),
    {
        let s = AssetStore { assets: Vec::new() };
        proof {
            assert(s.entries() =~= Seq::<(Seq<char>, Seq<u8>)>::empty());
        }
        s
    }

    pub fn len(&self) -> (n: usize)
        ensures
            n == self.entries().len(),
    {
        self.assets.len()
    }

    /// The identifier and bytes of the asset at one position, for flushing.
    pub fn get(&self, i: usize) -> (r: (&String, &Vec<u8>))
        requires
            i < self.entries().len(),
        ensures
            r.0@ == self.entries()[i as int].0,
            r.1@ == self.entries()[i as int].1,
    {
        let a = &self.assets[i];
        (&a.identifier, &a.bytes)
    }

    /// Registers bytes under a logical name and extension. Idempotent: the
    /// same content under the same name maps to the same identifier and is
    /// a no-op the second time. An identifier clash with different bytes is
    /// reported as a hash collision and changes nothing.
    pub fn register(&mut self, name: &str, ext: &str, content: Vec<u8>) -> (r: Result<
        String,
        BlogError,
    >)
        requires
            old(self).wf(),
        ensures
            final(self).wf(),
            final(self).entries() == entries_after_register(
                old(self).entries(),
                name@,
                ext@,
                content@,
            ),
            ({
                let id = asset_identifier(name@, ext@, content@);
                match r {
                    Ok(path) => !register_conflicts(old(self).entries(), name@, ext@, content@)
                        && path@ == static_path_of(id) && has_entry(
                        final(self).entries(),
                        id,
                        content@,
                    ),
                    Err(e) => register_conflicts(old(self).entries(), name@, ext@, content@) && (
                    e matches BlogError::HashCollision(_)),
                }
            }),
    {
        let id = make_identifier(name, ext, content.as_slice());
        let ghost es = self.entries();
        let ghost gid = id@;
        let mut i: usize = 0;
        while i < self.assets.len()
            invariant
                self == old(self),
                es == self.entries(),
                ids_unique(es),
                gid == id@,
                gid == asset_identifier(name@, ext@, content@),
                i <= es.len(),
                es.len() == self.assets@.len(),
                forall|j: int| 0 <= j < i ==> es[j].0 != gid,
            decreases self.assets@.len() - i,
        {
            proof {
                assert(es[i as int] == (
                    self.assets@[i as int].identifier@,
                    self.assets@[i as int].bytes@,
                ));
            }
            if str_eq(self.assets[i].identifier.as_str(), id.as_str()) {
                proof {
                    assert(es[i as int].0 == gid);
                }
                if bytes_eq(self.assets[i].bytes.as_slice(), content.as_slice()) {
                    proof {
                        assert(has_id(es, gid));
                        assert(has_entry(es, gid, content@));
                        assert(!register_conflicts(es, name@, ext@, content@)) by {
                            assert(forall|k: int|
                                0 <= k < es.len() && es[k].0 == gid ==> #[trigger] es[k].1
                                    == content@) by {
                                assert(forall|k: int|
                                    0 <= k < es.len() && es[k].0 == gid ==> k == i) by {
                                    assert(ids_unique(es));
                                }
                            }
                        }
                    }
                    return Ok(prefix_static(id.as_str()));
                } else {
                    proof {
                        assert(es[i as int].1 != content@);
                        assert(register_conflicts(es, name@, ext@, content@));
                        assert(has_id(es, gid));
                    }
                    return Err(BlogError::HashCollision(id));
                }
            }
            i += 1;
        }
        proof {
            assert(!has_id(es, gid));
            assert(!register_conflicts(es, name@, ext@, content@));
        }
        let path = prefix_static(id.as_str());
        let ghost content_view = content@;
        self.assets.push(Asset { identifier: id, bytes: content });
        proof {
            assert(self.entries() =~= es.push((gid, content_view)));
            assert(has_entry(self.entries(), gid, content_view)) by {
                assert(self.entries()[es.len() as int].0 == gid);
            }
            assert(ids_unique(self.entries())) by {
                assert(forall|k: int|
                    0 <= k < es.len() ==> #[trigger] self.entries()[k] == es[k]);
            }
        }
        Ok(path)
    }
}

/// Registering extends the store: every present entry keeps its position,
/// and at most one entry is appended.
pub proof fn lemma_register_extends(
    es: Seq<(Seq<char>, Seq<u8>)>,
    name: Seq<char>,
    ext: Seq<char>,
    bytes: Seq<u8>,
)
    ensures
        ({
            let es2 = entries_after_register(es, name, ext, bytes);
            &&& es.len() <= es2.len() <= es.len() + 1
            &&& forall|i: int| 0 <= i < es.len() ==> es2[i] == es[i]
        }),
{
    let es2 = entries_after_register(es, name, ext, bytes);
    assert forall|i: int| 0 <= i < es.len() implies es2[i] == es[i] by {
        if !has_id(es, asset_identifier(name, ext, bytes)) {
            assert(es.push((asset_identifier(name, ext, bytes), bytes))[i] == es[i]);
        }
    }
}

/// Law: registering identical byte content twice under the same logical
/// name and extension yields the same identifier both times (the identifier
/// is a function of name, extension and content alone), the second
/// registration changes nothing, and the store grows by at most one entry.
pub proof fn lemma_register_idempotent(
    es: Seq<(Seq<char>, Seq<u8>)>,
    name: Seq<char>,
    ext: Seq<char>,
    bytes: Seq<u8>,
)
    ensures
        ({
            let once = entries_after_register(es, name, ext, bytes);
            let twice = entries_after_register(once, name, ext, bytes);
            &&& twice == once
            &&& once.len() <= es.len() + 1
        }),
{
    let id = asset_identifier(name, ext, bytes);
    let once = entries_after_register(es, name, ext, bytes);
    if !has_id(es, id) {
        assert(once == es.push((id, bytes)));
        assert(once[es.len() as int].0 == id);
        assert(has_id(once, id));
    }
}

} // verus!
