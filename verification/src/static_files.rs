//! The registry of the site's static files: each file is served under a name made of the hash of
//! its contents, and the templates find that name by the file's own key.
use vstd::prelude::*;

use crate::json::{as_str, json_view, Json};
use crate::tagger::{
    assoc_get, assoc_insert, key_index, keys_of, lemma_assoc_get_insert, string_key_index, string_keys,
    strs_view,
};
use crate::tagset::{strictly_sorted, TagSet};
use crate::text::{digit_char, digit_to_char, push_char, push_str, str_eq};

verus! {

/// The SHA-256 digest of the bytes.
pub uninterp spec fn sha256_of(bytes: Seq<u8>) -> Seq<u8>;

/// The MIME type that `infer` recognizes in the bytes, by their contents.
pub uninterp spec fn inferred_mime(bytes: Seq<u8>) -> Option<Seq<char>>;

/// `<sha2::Sha256 as Digest>::digest`: the SHA-256 digest of the bytes, 32 bytes long.
#[verifier::external_body]
fn sha256(buf: &[u8]) -> (r: Vec<u8>)
    ensures
        r@ == sha256_of(buf@),
        r@.len() == 32,
{
    <sha2::Sha256 as sha2::Digest>::digest(buf).to_vec()
}

/// `infer::get`: the type the contents of the bytes show, given by its MIME type.
#[verifier::external_body]
fn infer_mime(buf: &[u8]) -> (r: Option<&'static str>)
    ensures
        match (r, inferred_mime(buf@)) {
            (Some(m), Some(v)) => m@ == v,
            (None, None) => true,
            _ => false,
        },
{
    match infer::get(buf) {
        Some(t) => Some(t.mime_type()),
        None => None,
    }
}

/// The lowercase hexadecimal digit of `n < 16`.
pub open spec fn hex_char(n: int) -> char {
    if n < 10 {
        digit_char(n as nat)
    } else if n == 10 {
        'a'
    } else if n == 11 {
        'b'
    } else if n == 12 {
        'c'
    } else if n == 13 {
        'd'
    } else if n == 14 {
        'e'
    } else {
        'f'
    }
}

/// Each byte as two lowercase hexadecimal digits.
pub open spec fn hex_of(bytes: Seq<u8>) -> Seq<char>
    decreases bytes.len(),
{
    if bytes.len() == 0 {
        Seq::empty()
    } else {
        hex_of(bytes.drop_last()) + seq![hex_char(bytes.last() as int / 16), hex_char(bytes.last() as int % 16)]
    }
}

/// The key of a hash: `v0-` and the hash in hexadecimal.
pub open spec fn hash_key(bytes: Seq<u8>) -> Seq<char> {
    seq!['v', '0', '-'] + hex_of(bytes)
}

fn hex_digit(n: u8) -> (c: char)
    requires
        n < 16,
    ensures
        c == hex_char(n as int),
{
    if n < 10 {
        digit_to_char(n as u64)
    } else if n == 10 {
        'a'
    } else if n == 11 {
        'b'
    } else if n == 12 {
        'c'
    } else if n == 13 {
        'd'
    } else if n == 14 {
        'e'
    } else {
        'f'
    }
}

/// `v0-` followed by the bytes in lowercase hexadecimal.
pub fn to_hash_key(bytes: &[u8]) -> (r: String)
    ensures
        r@ == hash_key(bytes@),
{
    let mut s = String::new();
    push_char(&mut s, 'v');
    push_char(&mut s, '0');
    push_char(&mut s, '-');
    let mut i: usize = 0;
    assert(bytes@.take(0) =~= Seq::<u8>::empty());
    while i < bytes.len()
        invariant
            i <= bytes@.len(),
            s@ == hash_key(bytes@.take(i as int)),
        decreases bytes@.len() - i,
    {
        let b = bytes[i];
        push_char(&mut s, hex_digit(b / 16));
        push_char(&mut s, hex_digit(b % 16));
        assert(bytes@.take(i + 1).drop_last() =~= bytes@.take(i as int));
        assert(bytes@.take(i + 1).last() == b);
        i = i + 1;
        assert(s@ =~= hash_key(bytes@.take(i as int)));
    }
    assert(bytes@.take(bytes@.len() as int) =~= bytes@);
    s
}

/// The key of a hash is `v0-` and two digits for each byte.
pub proof fn lemma_hash_key_len(bytes: Seq<u8>)
    ensures
        hash_key(bytes).len() == 3 + 2 * bytes.len(),
    decreases bytes.len(),
{
    lemma_hex_len(bytes);
}

proof fn lemma_hex_len(bytes: Seq<u8>)
    ensures
        hex_of(bytes).len() == 2 * bytes.len(),
    decreases bytes.len(),
{
    if bytes.len() > 0 {
        lemma_hex_len(bytes.drop_last());
    }
}

/// The MIME type of a file: plain text and CSS by their extension, anything else by its contents.
pub open spec fn mime_of(extension: Seq<char>, buf: Seq<u8>) -> Option<Seq<char>> {
    if extension == "txt"@ {
        Some("text/plain"@)
    } else if extension == "css"@ {
        Some("text/css"@)
    } else {
        inferred_mime(buf)
    }
}

fn mime_type_from(extension: &str, buf: &[u8]) -> (r: Option<&'static str>)
    ensures
        match (r, mime_of(extension@, buf@)) {
            (Some(m), Some(v)) => m@ == v,
            (None, None) => true,
            _ => false,
        },
{
    if str_eq(extension, "txt") {
        Some("text/plain")
    } else if str_eq(extension, "css") {
        Some("text/css")
    } else {
        infer_mime(buf)
    }
}

#[verifier::external_type_specification]
#[verifier::external_body]
pub struct ExIoError(std::io::Error);

/// The static files by the name they are served under, and that name by each file's key.
pub struct StaticFileRegistry {
    by_key: Vec<(String, String)>,
    files: Vec<(String, (Vec<u8>, &'static str))>,
}

/// The registry as plain values: each key with the name its file is served under, and each such
/// name with the file's bytes and MIME type. A name or key occurs once in each.
pub struct StaticFilesView {
    pub by_key: Seq<(Seq<char>, Seq<char>)>,
    pub files: Seq<(Seq<char>, (Seq<u8>, Seq<char>))>,
}

pub open spec fn names_view(m: Seq<(String, String)>) -> Seq<(Seq<char>, Seq<char>)> {
    m.map_values(|e: (String, String)| (e.0@, e.1@))
}

pub open spec fn files_view(m: Seq<(String, (Vec<u8>, &'static str))>) -> Seq<(Seq<char>, (Seq<u8>, Seq<char>))> {
    m.map_values(|e: (String, (Vec<u8>, &'static str))| (e.0@, (e.1.0@, e.1.1@)))
}

impl View for StaticFileRegistry {
    type V = StaticFilesView;

    closed spec fn view(&self) -> StaticFilesView {
        StaticFilesView { by_key: names_view(self.by_key@), files: files_view(self.files@) }
    }
}

/// The name a file is served under: the key of its contents' hash, a dot, and its extension.
pub open spec fn served_name(buf: Seq<u8>, extension: Seq<char>) -> Seq<char> {
    hash_key(sha256_of(buf)) + seq!['.'] + extension
}

proof fn lemma_files_insert(
    m: Seq<(String, (Vec<u8>, &'static str))>,
    k: String,
    v: (Vec<u8>, &'static str),
    r: Seq<(String, (Vec<u8>, &'static str))>,
)
    requires
        r == match key_index(string_keys(m), k@) {
            Some(i) => m.update(i, (k, v)),
            None => m.push((k, v)),
        },
    ensures
        files_view(r) == assoc_insert(files_view(m), k@, (v.0@, v.1@)),
{
    assert(keys_of(files_view(m)) =~= string_keys(m));
    crate::tagger::lemma_key_index(string_keys(m), k@);
    match key_index(string_keys(m), k@) {
        Some(i) => {
            assert(files_view(r) =~= files_view(m).update(i, (k@, (v.0@, v.1@))));
        },
        None => {
            assert(files_view(r) =~= files_view(m).push((k@, (v.0@, v.1@))));
        },
    }
}

proof fn lemma_names_insert(m: Seq<(String, String)>, k: String, v: String, r: Seq<(String, String)>)
    requires
        r == match key_index(string_keys(m), k@) {
            Some(i) => m.update(i, (k, v)),
            None => m.push((k, v)),
        },
    ensures
        names_view(r) == assoc_insert(names_view(m), k@, v@),
{
    assert(keys_of(names_view(m)) =~= string_keys(m));
    crate::tagger::lemma_key_index(string_keys(m), k@);
    match key_index(string_keys(m), k@) {
        Some(i) => {
            assert(names_view(r) =~= names_view(m).update(i, (k@, v@)));
        },
        None => {
            assert(names_view(r) =~= names_view(m).push((k@, v@)));
        },
    }
}

/// `HashMap::insert` on a list of entries keyed by strings.
fn string_assoc_insert<V>(m: &mut Vec<(String, V)>, k: String, v: V)
    ensures
        final(m)@ == match key_index(string_keys(old(m)@), k@) {
            Some(i) => old(m)@.update(i, (k, v)),
            None => old(m)@.push((k, v)),
        },
{
    match string_key_index(m, &k) {
        Some(i) => {
            m.set(i, (k, v));
        },
        None => {
            m.push((k, v));
        },
    }
}

/// The position of a key among string-keyed entries.
fn find_key<V>(m: &Vec<(String, V)>, k: &str) -> (r: Option<usize>)
    ensures
        r matches Some(i) ==> key_index(string_keys(m@), k@) == Some(i as int) && i < m@.len(),
        r is None ==> key_index(string_keys(m@), k@) is None,
{
    let key = k.to_string();
    string_key_index(m, &key)
}

fn copy_bytes(b: &[u8]) -> (r: Vec<u8>)
    ensures
        r@ == b@,
{
    let mut v: Vec<u8> = Vec::new();
    let mut i: usize = 0;
    while i < b.len()
        invariant
            i <= b@.len(),
            v@ == b@.take(i as int),
        decreases b@.len() - i,
    {
        v.push(b[i]);
        i = i + 1;
        assert(v@ =~= b@.take(i as int));
    }
    assert(b@.take(b@.len() as int) =~= b@);
    v
}

impl StaticFileRegistry {
    /// An empty registry.
    pub fn new() -> (r: StaticFileRegistry)
        ensures
            r@.by_key == Seq::<(Seq<char>, Seq<char>)>::empty(),
            r@.files == Seq::<(Seq<char>, (Seq<u8>, Seq<char>))>::empty(),
    {
        let r = StaticFileRegistry { by_key: Vec::new(), files: Vec::new() };
        assert(r@.by_key =~= Seq::<(Seq<char>, Seq<char>)>::empty());
        assert(r@.files =~= Seq::<(Seq<char>, (Seq<u8>, Seq<char>))>::empty());
        r
    }

    /// Registers the bytes of a file under its key: the file is served under the name its
    /// contents' hash and its extension make, with the MIME type of its extension or contents,
    /// which must be known.
    pub fn register_bytes(&mut self, key: &str, extension: &str, buf: &[u8]) -> (r: Result<(), std::io::Error>)
        requires
            mime_of(extension@, buf@) is Some,
        ensures
            r is Ok,
            final(self)@.files == assoc_insert(
                old(self)@.files,
                served_name(buf@, extension@),
                (buf@, mime_of(extension@, buf@).unwrap()),
            ),
            final(self)@.by_key == assoc_insert(old(self)@.by_key, key@, served_name(buf@, extension@)),
    {
        let mime_type = match mime_type_from(extension, buf) {
            Some(m) => m,
            None => {
                assert(false);
                "application/octet-stream"
            },
        };
        let hash = sha256(buf);
        let mut name = to_hash_key(hash.as_slice());
        push_char(&mut name, '.');
        push_str(&mut name, extension);
        assert(name@ =~= served_name(buf@, extension@));
        let ghost old_files = self.files@;
        let ghost old_by_key = self.by_key@;
        let stored = name.clone();
        let bytes = copy_bytes(buf);
        let entry = (bytes, mime_type);
        assert(stored@ == name@);
        string_assoc_insert(&mut self.files, stored, entry);
        let owned_key = key.to_string();
        assert(owned_key@ == key@);
        string_assoc_insert(&mut self.by_key, owned_key, name);
        proof {
            lemma_files_insert(old_files, stored, entry, self.files@);
            lemma_names_insert(old_by_key, owned_key, name, self.by_key@);
        }
        Ok(())
    }

    /// Registers the bytes of a file where its MIME type is known; otherwise leaves the registry as
    /// it is and says so.
    pub fn try_register_bytes(&mut self, key: &str, extension: &str, buf: &[u8]) -> (r: bool)
        ensures
            r == (mime_of(extension@, buf@) is Some),
            r ==> final(self)@.files == assoc_insert(
                old(self)@.files,
                served_name(buf@, extension@),
                (buf@, mime_of(extension@, buf@).unwrap()),
            ) && final(self)@.by_key == assoc_insert(
                old(self)@.by_key,
                key@,
                served_name(buf@, extension@),
            ),
            !r ==> final(self)@ == old(self)@,
    {
        match mime_type_from(extension, buf) {
            Some(_) => {
                let _ = self.register_bytes(key, extension, buf);
                true
            },
            None => false,
        }
    }

    /// The keys of the registered files, in increasing order.
    pub fn keys(&self) -> (r: Vec<String>)
        ensures
            strictly_sorted(strs_view(r@)),
            strs_view(r@).to_set() == keys_of(self@.by_key).to_set(),
    {
        let mut ks: Vec<String> = Vec::new();
        let mut i: usize = 0;
        while i < self.by_key.len()
            invariant
                i <= self.by_key@.len(),
                strs_view(ks@) == string_keys(self.by_key@).take(i as int),
            decreases self.by_key@.len() - i,
        {
            let ghost before = strs_view(ks@);
            let k = self.by_key[i].0.clone();
            assert(k@ == self.by_key@[i as int].0@);
            ks.push(k);
            assert(strs_view(ks@) =~= before.push(k@));
            i = i + 1;
            assert(strs_view(ks@) =~= string_keys(self.by_key@).take(i as int));
        }
        assert(string_keys(self.by_key@).take(i as int) =~= keys_of(self@.by_key));
        let set = TagSet::from_iter(ks);
        let r = set.collect();
        assert(strs_view(r@) =~= r@.map_values(|s: String| s@));
        r
    }

    /// The name the file of a key is served under.
    pub fn lookup_key(&self, key: &str) -> (r: Option<&str>)
        ensures
            match (r, assoc_get(self@.by_key, key@)) {
                (Some(n), Some(v)) => n@ == v,
                (None, None) => true,
                _ => false,
            },
    {
        proof {
            assert(keys_of(self@.by_key) =~= string_keys(self.by_key@));
        }
        match find_key(&self.by_key, key) {
            Some(i) => Some(self.by_key[i].1.as_str()),
            None => None,
        }
    }

    /// The bytes and MIME type of the file served under a name.
    pub fn get_bytes_from_key(&self, key: &str) -> (r: Option<(Vec<u8>, &'static str)>)
        ensures
            match (r, assoc_get(self@.files, key@)) {
                (Some((b, m)), Some((bv, mv))) => b@ == bv && m@ == mv,
                (None, None) => true,
                _ => false,
            },
    {
        proof {
            assert(keys_of(self@.files) =~= string_keys(self.files@));
        }
        match find_key(&self.files, key) {
            Some(i) => Some((copy_bytes(self.files[i].1.0.as_slice()), self.files[i].1.1)),
            None => None,
        }
    }
}

/// After a file is registered, its key gives the name it is served under, and that name gives
/// its bytes and MIME type.
pub proof fn lemma_registered_file_found(
    before: StaticFilesView,
    key: Seq<char>,
    extension: Seq<char>,
    buf: Seq<u8>,
    mime: Seq<char>,
)
    ensures
        assoc_get(assoc_insert(before.by_key, key, served_name(buf, extension)), key) == Some(
            served_name(buf, extension),
        ),
        assoc_get(
            assoc_insert(before.files, served_name(buf, extension), (buf, mime)),
            served_name(buf, extension),
        ) == Some((buf, mime)),
{
    lemma_assoc_get_insert(before.by_key, key, served_name(buf, extension));
    lemma_assoc_get_insert(before.files, served_name(buf, extension), (buf, mime));
}

} // verus!
