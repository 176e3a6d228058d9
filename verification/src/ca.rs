//! Certificate authority: a locally generated root CA plus on-demand leaf
//! certificates for TLS interception.
//!
//! The CA's private key never sits next to the certificate: it goes through a
//! secret store. Only the public certificate is handed out for export and
//! trust installation.

use std::sync::Arc;

use vstd::prelude::*;
use vstd::string::*;
use vstd::utf8::*;

use crate::certs;
use crate::certs::{AltName, PlanView, CA_COMMON_NAME, CA_ORGANIZATION};
use crate::config;
use crate::text;

verus! {

/// The file under the data directory that holds the public certificate.
pub const CA_CERT_FILE: &'static str = "httpmate-ca.pem";

/// The name of the private key in the secret store.
pub const CA_KEY_SECRET: &'static str = "ca-key.pem";

/// How many leaf certificates are kept.
pub const LEAF_CACHE_CAP: usize = 1024;

/// Storage for the CA private key.
pub trait SecretStore: Send + Sync {
    /// The secret of that name; none if there is no such secret.
    fn get(&self, name: &str) -> Result<Option<Vec<u8>>, String>;

    /// Keep a secret under a name.
    fn set(&self, name: &str, data: &[u8]) -> Result<(), String>;
}

/// A secret store of files in a directory, readable by the user only. For
/// platforms without a keychain.
#[derive(Debug)]
pub struct FileSecretStore {
    pub dir: String,
}

/// What came of reading a file.
#[derive(Debug)]
pub enum FileRead {
    Data(Vec<u8>),
    NotFound,
    Failed(String),
}

/// The secret that reading its file gives: a file that is not there is no
/// secret.
pub open spec fn secret_in(found: FileRead) -> Result<Option<Vec<u8>>, String> {
    match found {
        FileRead::Data(data) => Ok(Some(data)),
        FileRead::NotFound => Ok(None),
        FileRead::Failed(e) => Err(e),
    }
}

impl FileSecretStore {
    pub fn new(dir: String) -> (r: Self)
        ensures
            r.dir == dir,
    {
        FileSecretStore { dir }
    }

    /// The file that holds a secret.
    pub fn file(&self, name: &str) -> (r: String)
        ensures
            r@ == config::path_in(self.dir@, name@),
    {
        config::join_path(self.dir.as_str(), name)
    }

    /// The secret that reading its file gives: a file that is not there is no
    /// secret.
    pub fn read(&self, found: FileRead) -> (r: Result<Option<Vec<u8>>, String>)
        ensures
            r == secret_in(found),
    {
        match found {
            FileRead::Data(data) => Ok(Some(data)),
            FileRead::NotFound => Ok(None),
            FileRead::Failed(e) => Err(e),
        }
    }
}

/// The files of a disk, by path.
pub type Files = Map<Seq<char>, Seq<u8>>;

/// What reading a file finds.
pub open spec fn finds(files: Files, path: Seq<char>, found: FileRead) -> bool {
    match found {
        FileRead::Data(data) => files.contains_key(path) && files[path] == data@,
        FileRead::NotFound => !files.contains_key(path),
        FileRead::Failed(_) => false,
    }
}

/// The name of a file, without a directory.
pub open spec fn plain_name(name: Seq<char>) -> bool {
    forall|i: int| 0 <= i < name.len() ==> #[trigger] name[i] != '/'
}

/// The files after secrets were written, one after another, by stores of that
/// directory.
pub open spec fn with_secrets(
    files: Files,
    dir: Seq<char>,
    writes: Seq<(Seq<char>, Seq<u8>)>,
) -> Files
    decreases writes.len(),
{
    if writes.len() == 0 {
        files
    } else {
        with_secrets(files, dir, writes.drop_last()).insert(
            config::path_in(dir, writes.last().0),
            writes.last().1,
        )
    }
}

/// Different names are different files.
proof fn lemma_path_in_differs(dir: Seq<char>, a: Seq<char>, b: Seq<char>)
    requires
        a != b,
    ensures
        config::path_in(dir, a) != config::path_in(dir, b),
{
    let start = if dir.len() == 0 || dir.last() == '/' {
        dir
    } else {
        dir + "/"@
    };
    let n = start.len() as int;
    assert(config::path_in(dir, a).skip(n) =~= a);
    assert(config::path_in(dir, b).skip(n) =~= b);
}

/// A secret is what was last written under its name, whichever store of the
/// directory wrote it and whatever was written under other names; a secret
/// that was never written is none.
pub proof fn law_file_secrets_read_back(
    files: Files,
    dir: Seq<char>,
    writes: Seq<(Seq<char>, Seq<u8>)>,
    name: Seq<char>,
    found: FileRead,
)
    requires
        finds(with_secrets(files, dir, writes), config::path_in(dir, name), found),
    ensures
        forall|i: int|
            0 <= i < writes.len() && (#[trigger] writes[i]).0 == name && (forall|j: int|
                i < j < writes.len() ==> (#[trigger] writes[j]).0 != name) ==> {
                &&& secret_in(found) is Ok
                &&& secret_in(found)->Ok_0 is Some
                &&& secret_in(found)->Ok_0->0@ == writes[i].1
            },
        !files.contains_key(config::path_in(dir, name)) && (forall|j: int|
            0 <= j < writes.len() ==> (#[trigger] writes[j]).0 != name) ==> secret_in(found) == Ok::<
            Option<Vec<u8>>,
            String,
        >(None),
    decreases writes.len(),
{
    if writes.len() > 0 {
        let fewer = writes.drop_last();
        let n = writes.len() - 1;
        assert(writes[n] == writes.last());
        assert(forall|j: int| 0 <= j < n ==> fewer[j] == #[trigger] writes[j]);
        if writes.last().0 != name {
            lemma_path_in_differs(dir, writes.last().0, name);
            law_file_secrets_read_back(files, dir, fewer, name, found);
            assert forall|i: int|
                0 <= i < writes.len() && (#[trigger] writes[i]).0 == name && (forall|j: int|
                    i < j < writes.len() ==> (#[trigger] writes[j]).0 != name) implies {
                &&& secret_in(found) is Ok
                &&& secret_in(found)->Ok_0 is Some
                &&& secret_in(found)->Ok_0->0@ == writes[i].1
            } by {
                assert(fewer[i] == writes[i]);
                assert forall|j: int| i < j < fewer.len() implies (#[trigger] fewer[j]).0
                    != name by {
                    assert(writes[j].0 != name);
                }
            }
            if forall|j: int| 0 <= j < writes.len() ==> (#[trigger] writes[j]).0 != name {
                assert forall|j: int| 0 <= j < fewer.len() implies (#[trigger] fewer[j]).0
                    != name by {
                    assert(writes[j].0 != name);
                }
            }
        }
    }
}

/// A leaf certificate with its private key, both in DER form, ready to be
/// served.
#[derive(Debug)]
pub struct Leaf {
    pub cert_der: Vec<u8>,
    pub key_der: Vec<u8>,
}

/// A leaf certificate with its private key.
pub struct LeafView {
    pub cert_der: Seq<u8>,
    pub key_der: Seq<u8>,
}

impl View for Leaf {
    type V = LeafView;

    open spec fn view(&self) -> LeafView {
        LeafView { cert_der: self.cert_der@, key_der: self.key_der@ }
    }
}

/// The leaf certificates that were used, with their hosts, the latest last.
pub type Uses = Seq<(Seq<char>, LeafView)>;

/// Whether there is a leaf for a host.
pub open spec fn holds(uses: Uses, host: Seq<char>) -> bool {
    exists|i: int| 0 <= i < uses.len() && (#[trigger] uses[i]).0 == host
}

/// Every host has one leaf.
pub open spec fn distinct(uses: Uses) -> bool {
    forall|i: int, j: int|
        0 <= i < j < uses.len() ==> (#[trigger] uses[i]).0 != (#[trigger] uses[j]).0
}

/// All but the leaf for a host.
pub open spec fn without(uses: Uses, host: Seq<char>) -> Uses
    decreases uses.len(),
{
    if uses.len() == 0 {
        Seq::empty()
    } else {
        let rest = without(uses.drop_last(), host);
        if uses.last().0 == host {
            rest
        } else {
            rest.push(uses.last())
        }
    }
}

/// A leaf was used: it is the latest, and where there were too many, the one
/// whose last use is longest ago is gone.
pub open spec fn used(uses: Uses, host: Seq<char>, leaf: LeafView) -> Uses {
    let rest = without(uses, host);
    let kept = if rest.len() >= LEAF_CACHE_CAP {
        rest.skip(1)
    } else {
        rest
    };
    kept.push((host, leaf))
}

/// Where there is no leaf for a host, none is taken out.
proof fn lemma_without_absent(uses: Uses, host: Seq<char>)
    requires
        !holds(uses, host),
    ensures
        without(uses, host) == uses,
    decreases uses.len(),
{
    if uses.len() > 0 {
        let n = uses.len() - 1;
        assert(uses[n].0 != host);
        let shorter = uses.drop_last();
        assert forall|i: int| 0 <= i < shorter.len() implies (#[trigger] shorter[i]).0 != host by {
            assert(uses[i].0 != host);
        }
        lemma_without_absent(shorter, host);
        assert(shorter.push(uses.last()) =~= uses);
    } else {
        assert(without(uses, host) =~= uses);
    }
}

/// Where there is a leaf for a host, that one is taken out.
proof fn lemma_without_present(uses: Uses, host: Seq<char>, at: int)
    requires
        distinct(uses),
        0 <= at < uses.len(),
        uses[at].0 == host,
    ensures
        without(uses, host) == uses.remove(at),
    decreases uses.len(),
{
    let shorter = uses.drop_last();
    let n = uses.len() - 1;
    assert(uses.last() == uses[n]);
    assert forall|i: int, j: int| 0 <= i < j < shorter.len() implies (#[trigger] shorter[i]).0 != (
    #[trigger] shorter[j]).0 by {
        assert(uses[i].0 != uses[j].0);
    }
    if at == n {
        assert forall|i: int| 0 <= i < shorter.len() implies (#[trigger] shorter[i]).0 != host by {
            assert(uses[i].0 != uses[n].0);
        }
        lemma_without_absent(shorter, host);
        assert(uses.remove(at) =~= shorter);
    } else {
        assert(uses[at].0 != uses[n].0);
        assert(shorter[at] == uses[at]);
        lemma_without_present(shorter, host, at);
        assert(shorter.remove(at).push(uses.last()) =~= uses.remove(at));
    }
}

/// The leaf certificates that were used last.
struct LeafCache {
    entries: Vec<(String, Arc<Leaf>)>,
}

/// The hosts and leaves of a list of entries.
spec fn entry_views(entries: Seq<(String, Arc<Leaf>)>) -> Uses {
    entries.map_values(|e: (String, Arc<Leaf>)| (e.0@, e.1@))
}

impl LeafCache {
    #[verifier::type_invariant]
    spec fn wf(self) -> bool {
        &&& distinct(entry_views(self.entries@))
        &&& self.entries@.len() <= LEAF_CACHE_CAP
    }

    /// The leaves, by their last use.
    spec fn uses(self) -> Uses {
        entry_views(self.entries@)
    }

    fn new() -> (r: Self)
        ensures
            r.uses() == Uses::empty(),
    {
        let entries: Vec<(String, Arc<Leaf>)> = Vec::new();
        proof {
            assert(entry_views(entries@) =~= Uses::empty());
        }
        LeafCache { entries }
    }

    /// Where the leaf for a host stands.
    fn find(&self, host: &str) -> (r: Option<usize>)
        ensures
            match r {
                Some(i) => i < self.uses().len() && self.uses()[i as int].0 == host@,
                None => !holds(self.uses(), host@),
            },
    {
        let n: usize = self.entries.len();
        let mut i: usize = 0;
        while i < n
            invariant
                n == self.entries@.len(),
                i <= n,
                forall|j: int| 0 <= j < i ==> (#[trigger] self.uses()[j]).0 != host@,
            decreases n - i,
        {
            if text::same_text(self.entries[i].0.as_str(), host) {
                return Some(i);
            }
            i += 1;
        }
        None
    }

    /// The leaf for a host, if there is one; it was then used.
    fn get(&mut self, host: &str) -> (r: Option<Arc<Leaf>>)
        ensures
            match r {
                Some(leaf) => {
                    &&& old(self).uses().contains((host@, leaf@))
                    &&& final(self).uses() == used(old(self).uses(), host@, leaf@)
                },
                None => !holds(old(self).uses(), host@) && *final(self) == *old(self),
            },
    {
        proof {
            use_type_invariant(&*self);
        }
        match self.find(host) {
            Some(i) => {
                let leaf = self.entries[i].1.clone();
                proof {
                    assert(self.uses()[i as int] == (host@, leaf@));
                }
                self.put(host, leaf.clone());
                Some(leaf)
            },
            None => None,
        }
    }

    /// A leaf for a host was used.
    fn put(&mut self, host: &str, leaf: Arc<Leaf>)
        ensures
            final(self).uses() == used(old(self).uses(), host@, leaf@),
    {
        proof {
            use_type_invariant(&*self);
        }
        let ghost before = self.uses();
        let ghost latest = (host@, leaf@);
        let found = self.find(host);
        let mut entries: Vec<(String, Arc<Leaf>)> = Vec::new();
        std::mem::swap(&mut entries, &mut self.entries);
        proof {
            assert(entry_views(entries@) == before);
        }
        if let Some(i) = found {
            proof {
                lemma_without_present(before, host@, i as int);
            }
            let ghost was = entries@;
            entries.remove(i);
            proof {
                assert(entry_views(entries@) =~= before.remove(i as int));
            }
        } else {
            proof {
                lemma_without_absent(before, host@);
            }
        }
        let ghost rest = without(before, host@);
        proof {
            lemma_without_distinct(before, host@);
        }
        if entries.len() >= LEAF_CACHE_CAP {
            entries.remove(0);
            proof {
                assert(entry_views(entries@) =~= rest.skip(1));
            }
        }
        let ghost kept = entry_views(entries@);
        entries.push((host.to_owned(), leaf));
        proof {
            assert(entry_views(entries@) =~= kept.push(latest));
            lemma_used_distinct(before, host@, latest.1);
        }
        self.entries = entries;
    }
}

/// Taking a leaf out leaves distinct hosts, none of them that one.
proof fn lemma_without_distinct(uses: Uses, host: Seq<char>)
    requires
        distinct(uses),
    ensures
        distinct(without(uses, host)),
        !holds(without(uses, host), host),
        without(uses, host).len() <= uses.len(),
{
    if holds(uses, host) {
        let at = choose|i: int| 0 <= i < uses.len() && (#[trigger] uses[i]).0 == host;
        lemma_without_present(uses, host, at);
        let rest = uses.remove(at);
        assert forall|i: int, j: int| 0 <= i < j < rest.len() implies (#[trigger] rest[i]).0 != (
        #[trigger] rest[j]).0 by {
            let i2 = if i < at { i } else { i + 1 };
            let j2 = if j < at { j } else { j + 1 };
            assert(rest[i] == uses[i2]);
            assert(rest[j] == uses[j2]);
        }
        assert forall|i: int| 0 <= i < rest.len() implies (#[trigger] rest[i]).0 != host by {
            let i2 = if i < at { i } else { i + 1 };
            assert(rest[i] == uses[i2]);
            if i2 < at {
                assert(uses[i2].0 != uses[at].0);
            } else {
                assert(uses[at].0 != uses[i2].0);
            }
        }
    } else {
        lemma_without_absent(uses, host);
    }
}

/// Using a leaf keeps one leaf for a host, and not too many.
proof fn lemma_used_distinct(uses: Uses, host: Seq<char>, leaf: LeafView)
    requires
        distinct(uses),
    ensures
        distinct(used(uses, host, leaf)),
        uses.len() <= LEAF_CACHE_CAP ==> used(uses, host, leaf).len() <= LEAF_CACHE_CAP,
{
    lemma_without_distinct(uses, host);
    let rest = without(uses, host);
    let kept = if rest.len() >= LEAF_CACHE_CAP {
        rest.skip(1)
    } else {
        rest
    };
    let after = used(uses, host, leaf);
    assert forall|i: int, j: int| 0 <= i < j < after.len() implies (#[trigger] after[i]).0 != (
    #[trigger] after[j]).0 by {
        let shift = rest.len() - kept.len();
        assert(kept[i] == rest[i + shift]);
        if j < kept.len() {
            assert(kept[j] == rest[j + shift]);
        }
    }
}

/// An issuer of certificates.
pub struct LoadedCa {
    cert: rcgen::Certificate,
    key: rcgen::KeyPair,
}

impl LoadedCa {
    #[verifier::type_invariant]
    spec fn wf(self) -> bool {
        &&& certs::key_der(self.key) is Some
        &&& certs::writable(certs::issued_subject(self.cert))
    }

    /// What its own certificate holds, its name among it.
    pub closed spec fn plan(self) -> PlanView {
        certs::issued_plan(self.cert)
    }

    /// Its private key, in PKCS#8 form.
    pub closed spec fn key(self) -> Seq<u8> {
        certs::key_der(self.key)->0
    }
}

/// A new issuer, whose private key is in the secret store.
pub struct NewCa {
    ca: LoadedCa,
    cert_pem: String,
}

impl NewCa {
    /// The issuer.
    pub closed spec fn ca(self) -> LoadedCa {
        self.ca
    }

    /// The PEM text of its certificate.
    pub closed spec fn pem(self) -> Seq<char> {
        self.cert_pem@
    }

    /// The public certificate, to be written to its file.
    pub fn cert_pem(&self) -> (r: &str)
        ensures
            r@ == self.pem(),
    {
        self.cert_pem.as_str()
    }
}

/// A new issuer, whose private key has yet to be stored.
pub struct DraftCa {
    new: NewCa,
    key_pem: String,
}

impl DraftCa {
    /// The issuer.
    pub closed spec fn ca(self) -> LoadedCa {
        self.new.ca
    }

    /// The PEM text of its certificate.
    pub closed spec fn pem(self) -> Seq<char> {
        self.new.cert_pem@
    }

    /// The PEM text of its private key.
    pub closed spec fn key_text(self) -> Seq<char> {
        self.key_pem@
    }

    /// The name under which the private key is to be stored.
    pub fn secret_name(&self) -> (r: &'static str)
        ensures
            r == CA_KEY_SECRET,
    {
        CA_KEY_SECRET
    }

    /// What is to be stored under that name, and nowhere else.
    pub fn secret(&self) -> (r: &[u8])
        ensures
            r@ == encode_utf8(self.key_text()),
    {
        self.key_pem.as_str().as_bytes()
    }

    /// The issuer, once the secret store has answered whether it keeps the
    /// private key.
    pub fn stored(self, kept: Result<(), String>) -> (r: Result<NewCa, String>)
        ensures
            match kept {
                Ok(_) => r is Ok && r->Ok_0.ca() == self.ca() && r->Ok_0.pem() == self.pem(),
                Err(e) => {
                    &&& r is Err
                    &&& r->Err_0@ == in_generating(e@)
                    &&& text::begins(r->Err_0@, in_generating(Seq::empty()))
                },
            },
    {
        match kept {
            Ok(_) => Ok(self.new),
            Err(e) => Err(generating_error(e.as_str())),
        }
    }
}

/// What has to be done before certificates can be issued.
#[derive(Debug, Clone, Copy, PartialEq, Eq, Structural)]
pub enum CaStep {
    /// Nothing.
    Ready,
    /// Load the persisted CA.
    Load,
    /// Generate a CA: it is the first run.
    Generate,
}

/// What has to be done before certificates can be issued, where there is an
/// issuer or not, and a certificate on disk or not.
pub open spec fn step_for(loaded: bool, cert_exists: bool) -> CaStep {
    if loaded {
        CaStep::Ready
    } else if cert_exists {
        CaStep::Load
    } else {
        CaStep::Generate
    }
}

/// Why no leaf was minted.
#[derive(Debug)]
pub enum MintError {
    /// There is no issuer yet.
    NotLoaded,
    /// No key could be generated.
    Key(String),
    /// No certificate can be made for the host.
    Host(String),
    /// The certificate could not be signed.
    Sign(String),
    /// TLS cannot be served with the key.
    Unsupported(String),
}

impl MintError {
    /// What is said of it.
    pub open spec fn text(self, host: Seq<char>) -> Seq<char> {
        match self {
            MintError::NotLoaded => "no certificate authority is loaded"@,
            MintError::Key(e) => e@,
            MintError::Host(e) => "invalid host for certificate: "@ + host + ": "@ + e@,
            MintError::Sign(e) => e@,
            MintError::Unsupported(e) => "unsupported leaf key: "@ + e@,
        }
    }

    /// What is said of it.
    pub fn message(&self, host: &str) -> (r: String)
        ensures
            r@ == self.text(host@),
    {
        match self {
            MintError::NotLoaded => "no certificate authority is loaded".to_owned(),
            MintError::Key(e) => e.clone(),
            MintError::Host(e) => {
                let mut out = "invalid host for certificate: ".to_owned();
                out.append(host);
                out.append(": ");
                out.append(e.as_str());
                out
            },
            MintError::Sign(e) => e.clone(),
            MintError::Unsupported(e) => {
                let mut out = "unsupported leaf key: ".to_owned();
                out.append(e.as_str());
                out
            },
        }
    }
}

/// What is said when the certificate is there and its key is not.
pub open spec fn missing_key_text(cert_path: Seq<char>) -> Seq<char> {
    "CA certificate exists but its private key is missing from the secret store; delete "@
        + cert_path + " to regenerate"@
}

/// An error while the persisted CA is loaded.
pub open spec fn in_loading(err: Seq<char>) -> Seq<char> {
    "loading persisted CA: "@ + err
}

/// An error while a CA is generated.
pub open spec fn in_generating(err: Seq<char>) -> Seq<char> {
    "generating root CA: "@ + err
}

/// An error while the persisted CA is loaded.
pub fn loading_error(err: &str) -> (r: String)
    ensures
        r@ == in_loading(err@),
{
    let mut out = "loading persisted CA: ".to_owned();
    out.append(err);
    out
}

/// An error while a CA is generated.
pub fn generating_error(err: &str) -> (r: String)
    ensures
        r@ == in_generating(err@),
        text::begins(r@, in_generating(Seq::empty())),
{
    let mut out = "generating root CA: ".to_owned();
    out.append(err);
    proof {
        let start = in_generating(Seq::empty());
        assert(out@.take(start.len() as int) =~= start);
    }
    out
}

/// What is said of a CA certificate whose subject cannot be written.
pub open spec fn unwritable_text() -> Seq<char> {
    "the subject of the CA certificate cannot be written"@
}

/// `r` is what becomes of a key and of the parameters that a certificate was
/// read to once they are signed anew: the issuer, or the error that signing
/// came to. What is signed has the subject that was read.
spec fn is_signed_anew(
    read: rcgen::CertificateParams,
    key: rcgen::KeyPair,
    r: Result<LoadedCa, String>,
) -> bool {
    exists|params: rcgen::CertificateParams, signed: Result<rcgen::Certificate, String>|
        #![trigger call_ensures(certs::self_sign, (params, &key), signed)]
        {
            &&& call_ensures(certs::self_sign, (params, &key), signed)
            &&& certs::params_subject(params) == certs::params_subject(read)
            &&& certs::params_plan(params).common_name == certs::params_plan(read).common_name
            &&& certs::params_plan(params).organization == certs::params_plan(read).organization
            &&& match signed {
                Ok(cert) => r == Ok::<LoadedCa, String>(LoadedCa { cert, key }),
                Err(e) => r == Err::<LoadedCa, String>(e),
            }
        }
}

/// `r` is what becomes of a key that was read and of the text of its
/// certificate: they are signed anew, unless the text is not read or the
/// subject in it cannot be written.
spec fn is_read_with(cert_pem: Seq<char>, key: rcgen::KeyPair, r: Result<LoadedCa, String>) -> bool {
    exists|pem: &str, read: Result<rcgen::CertificateParams, String>|
        #![trigger call_ensures(certs::read_ca_params, (pem,), read)]
        {
            &&& pem@ == cert_pem
            &&& call_ensures(certs::read_ca_params, (pem,), read)
            &&& match read {
                Ok(read) => if certs::writable(certs::params_subject(read)) {
                    is_signed_anew(read, key, r)
                } else {
                    r is Err && r->Err_0@ == unwritable_text()
                },
                Err(e) => r == Err::<LoadedCa, String>(e),
            }
        }
}

/// `r` is the issuer that is read back from two PEM texts. It is there if the
/// key is read, then the certificate, its subject can be written, and the two
/// are then signed; otherwise it is the error of the first of these that
/// fails.
pub closed spec fn is_read_back(
    cert_pem: Seq<char>,
    key_pem: Seq<char>,
    r: Result<LoadedCa, String>,
) -> bool {
    exists|pem: &str, key: Result<rcgen::KeyPair, String>|
        #![trigger call_ensures(certs::read_key, (pem,), key)]
        {
            &&& pem@ == key_pem
            &&& call_ensures(certs::read_key, (pem,), key)
            &&& match key {
                Ok(key) => is_read_with(cert_pem, key, r),
                Err(e) => r == Err::<LoadedCa, String>(e),
            }
        }
}

/// `r` is what becomes of a new key: parameters that say what a root holds
/// are signed with it, and the issuer is drafted, unless signing fails.
spec fn is_rooted(now_ns: u64, key: rcgen::KeyPair, r: Result<DraftCa, String>) -> bool {
    exists|params: rcgen::CertificateParams, signed: Result<rcgen::Certificate, String>|
        #![trigger call_ensures(certs::self_sign, (params, &key), signed)]
        {
            &&& call_ensures(certs::self_sign, (params, &key), signed)
            &&& certs::params_plan(params) == certs::root_view(now_ns)
            &&& match signed {
                Ok(cert) => {
                    &&& r is Ok
                    &&& r->Ok_0.new.ca == (LoadedCa { cert, key })
                    &&& certs::is_certificate_pem(
                        r->Ok_0.new.pem(),
                        certs::certificate_der(cert),
                    )
                    &&& certs::is_private_key_pem(r->Ok_0.key_pem@, certs::key_der(key)->0)
                },
                Err(e) => r is Err && r->Err_0@ == in_generating(e@),
            }
        }
}

/// `r` is the draft of a new issuer. It is there if a key is generated, and
/// then a root is signed with it; otherwise it is the error of the first of
/// these that fails.
pub closed spec fn is_drafted(now_ns: u64, r: Result<DraftCa, String>) -> bool {
    exists|key: Result<rcgen::KeyPair, String>|
        #![trigger call_ensures(certs::generate_key, (), key)]
        call_ensures(certs::generate_key, (), key) && match key {
            Ok(key) => is_rooted(now_ns, key, r),
            Err(e) => r is Err && r->Err_0@ == in_generating(e@),
        }
}

/// `r` is what becomes of a draft once the secret store is handed the PEM text
/// of its private key, under the key's name: the issuer, or the error of the
/// store.
pub open spec fn is_stored<S: SecretStore>(
    secrets: &S,
    draft: DraftCa,
    r: Result<NewCa, String>,
) -> bool {
    exists|data: &[u8], kept: Result<(), String>|
        #![trigger call_ensures(S::set, (secrets, CA_KEY_SECRET, data), kept)]
        {
            &&& call_ensures(S::set, (secrets, CA_KEY_SECRET, data), kept)
            &&& data@ == encode_utf8(draft.key_text())
            &&& match kept {
                Ok(_) => r is Ok && r->Ok_0.ca() == draft.ca() && r->Ok_0.pem() == draft.pem(),
                Err(e) => r is Err && r->Err_0@ == in_generating(e@),
            }
        }
}

/// Read an issuer back from the PEM texts of its certificate and key.
/// Signing anew what the certificate issues by gives a certificate whose
/// subject and key are the trusted ones, which is all that a chain to it
/// needs; the root itself is never served, so its dates do not matter.
fn read_ca(cert_pem: &str, key_pem: &str) -> (r: Result<LoadedCa, String>)
    ensures
        is_read_back(cert_pem@, key_pem@, r),
        r is Ok ==> {
            &&& forall|der: Seq<u8>| #[trigger]
                certs::is_private_key_pem(key_pem@, der) ==> r->Ok_0.key() == der
            &&& forall|
                plan: PlanView,
                subject_key: Seq<u8>,
                issuer: PlanView,
                issuer_key: Seq<u8>,
                der: Seq<u8>,
            |
                #[trigger] certs::is_signed(plan, subject_key, issuer, issuer_key, der)
                    && certs::is_certificate_pem(cert_pem@, der) ==> {
                    &&& r->Ok_0.plan().common_name == plan.common_name
                    &&& r->Ok_0.plan().organization == plan.organization
                }
        },
{
    let key = match certs::read_key(key_pem) {
        Ok(key) => key,
        Err(e) => {
            return Err(e);
        },
    };
    let read = match certs::read_ca_params(cert_pem) {
        Ok(read) => read,
        Err(e) => {
            return Err(e);
        },
    };
    let subject = certs::subject_of(&read);
    if !certs::can_write_subject(&subject) {
        return Err("the subject of the CA certificate cannot be written".to_owned());
    }
    let plan = certs::root_plan(0);
    let mut params = match certs::params_for(&plan.names) {
        Ok(params) => params,
        Err(e) => {
            return Err(e);
        },
    };
    certs::set_usage(&mut params, &plan);
    certs::set_validity(&mut params, &plan);
    certs::take_issuer(&mut params, read);
    match certs::self_sign(params, &key) {
        Ok(cert) => Ok(LoadedCa { cert, key }),
        Err(e) => Err(e),
    }
}

/// The certificate authority.
pub struct CertAuthority {
    data_dir: String,
    inner: Option<LoadedCa>,
    leaf_cache: LeafCache,
}

impl CertAuthority {
    /// Where the public certificate is kept.
    pub closed spec fn path(self) -> Seq<char> {
        config::path_in(self.data_dir@, CA_CERT_FILE@)
    }

    /// The issuer, once there is one.
    pub closed spec fn issuer(self) -> Option<LoadedCa> {
        self.inner
    }

    /// The leaves that are kept, by their last use.
    pub closed spec fn cached(self) -> Uses {
        self.leaf_cache.uses()
    }

    pub fn new(data_dir: String) -> (r: Self)
        ensures
            r.path() == config::path_in(data_dir@, CA_CERT_FILE@),
            r.issuer() is None,
            r.cached() == Uses::empty(),
    {
        CertAuthority { data_dir, inner: None, leaf_cache: LeafCache::new() }
    }

    /// Where the public certificate is kept.
    pub fn cert_path(&self) -> (r: String)
        ensures
            r@ == self.path(),
    {
        config::join_path(self.data_dir.as_str(), CA_CERT_FILE)
    }

    /// What has to be done before certificates can be issued: load the
    /// persisted CA, or generate a fresh one on first run.
    pub fn ensure_ca(&self, cert_exists: bool) -> (r: CaStep)
        ensures
            r == step_for(self.issuer() is Some, cert_exists),
    {
        if self.inner.is_some() {
            CaStep::Ready
        } else if cert_exists {
            CaStep::Load
        } else {
            CaStep::Generate
        }
    }

    /// The issuer and what is said of it after a CA was read back, or was not.
    pub open spec fn adopted(
        self,
        after: Self,
        read: Result<LoadedCa, String>,
        r: Result<(), String>,
    ) -> bool {
        match read {
            Ok(ca) => r is Ok && after.issuer() == Some(ca),
            Err(e) => {
                &&& r is Err
                &&& r->Err_0@ == in_loading(e@)
                &&& after.issuer() == self.issuer()
            },
        }
    }

    /// The state after the persisted CA was loaded, or after that failed.
    /// `found` is what the secret store had to say of the key.
    pub open spec fn loaded(
        self,
        after: Self,
        cert_pem: Seq<char>,
        found: Result<Option<Vec<u8>>, String>,
        r: Result<(), String>,
    ) -> bool {
        &&& after.path() == self.path()
        &&& after.cached() == self.cached()
        &&& match found {
            Err(e) => r is Err && r->Err_0@ == in_loading(e@),
            Ok(None) => r is Err && r->Err_0@ == in_loading(missing_key_text(self.path())),
            Ok(Some(bytes)) => if valid_utf8(bytes@) {
                exists|read: Result<LoadedCa, String>|
                    #![trigger is_read_back(cert_pem, decode_utf8(bytes@), read)]
                    is_read_back(cert_pem, decode_utf8(bytes@), read) && self.adopted(after, read, r)
            } else {
                r is Err && r->Err_0@ == in_loading(certs::utf8_error(bytes@))
            },
        }
        &&& r is Err ==> {
            &&& after.issuer() == self.issuer()
            &&& text::begins(r->Err_0@, in_loading(Seq::empty()))
        }
        &&& r is Ok ==> {
            let bytes = found->Ok_0->0@;
            let ca = after.issuer()->0;
            &&& after.issuer() is Some
            &&& forall|der: Seq<u8>| #[trigger]
                certs::is_private_key_pem(decode_utf8(bytes), der) ==> ca.key() == der
            &&& forall|
                plan: PlanView,
                subject_key: Seq<u8>,
                issuer: PlanView,
                issuer_key: Seq<u8>,
                der: Seq<u8>,
            |
                #[trigger] certs::is_signed(plan, subject_key, issuer, issuer_key, der)
                    && certs::is_certificate_pem(cert_pem, der) ==> {
                    &&& ca.plan().common_name == plan.common_name
                    &&& ca.plan().organization == plan.organization
                }
        }
    }

    /// Load the persisted CA, given what the secret store had to say of its
    /// key.
    pub fn load_with(
        &mut self,
        cert_pem: &str,
        found: Result<Option<Vec<u8>>, String>,
    ) -> (r: Result<(), String>)
        ensures
            old(self).loaded(*final(self), cert_pem@, found, r),
    {
        let outcome = match found {
            Err(e) => Err(e),
            Ok(None) => {
                let path = self.cert_path();
                let mut message =
                    "CA certificate exists but its private key is missing from the secret store; delete ".to_owned();
                message.append(path.as_str());
                message.append(" to regenerate");
                Err(message)
            },
            Ok(Some(bytes)) => match certs::utf8_text(&bytes) {
                Ok(key_pem) => read_ca(cert_pem, key_pem.as_str()),
                Err(e) => Err(e),
            },
        };
        let ghost said = outcome;
        let r = self.adopt(outcome);
        proof {
            if let Err(e) = said {
                assert(r->Err_0@.take(in_loading(Seq::empty()).len() as int) =~= in_loading(
                    Seq::empty(),
                ));
            }
        }
        r
    }

    /// Put a CA to use that was read back, or tell why it was not.
    pub fn adopt(&mut self, read: Result<LoadedCa, String>) -> (r: Result<(), String>)
        ensures
            final(self).path() == old(self).path(),
            final(self).cached() == old(self).cached(),
            old(self).adopted(*final(self), read, r),
    {
        match read {
            Ok(ca) => {
                self.inner = Some(ca);
                Ok(())
            },
            Err(e) => Err(loading_error(e.as_str())),
        }
    }

    /// Load the persisted CA: its certificate, and its key from the secret
    /// store.
    pub fn load_ca<S: SecretStore>(&mut self, cert_pem: &str, secrets: &S) -> (r: Result<
        (),
        String,
    >)
        ensures
            exists|found: Result<Option<Vec<u8>>, String>|
                #![trigger call_ensures(S::get, (secrets, CA_KEY_SECRET), found)]
                call_ensures(S::get, (secrets, CA_KEY_SECRET), found) && old(self).loaded(
                    *final(self),
                    cert_pem@,
                    found,
                    r,
                ),
    {
        let found = secrets.get(CA_KEY_SECRET);
        self.load_with(cert_pem, found)
    }

    /// Generate a CA and keep its private key in the secret store. Nothing
    /// changes until its certificate is written and it is put to use.
    pub fn generate_ca<S: SecretStore>(&self, now_ns: u64, secrets: &S) -> (r: Result<
        NewCa,
        String,
    >)
        ensures
            r is Ok ==> {
                let key = r->Ok_0.ca().key();
                let plan = certs::root_view(now_ns);
                &&& r->Ok_0.ca().plan() == plan
                &&& certs::key_kind(key) is EcdsaP256
                &&& exists|der: Seq<u8>|
                    #[trigger] certs::is_signed(plan, key, plan, key, der)
                        && certs::is_certificate_pem(r->Ok_0.pem(), der)
            },
            exists|draft: Result<DraftCa, String>|
                #![trigger is_drafted(now_ns, draft)]
                is_drafted(now_ns, draft) && match draft {
                    Ok(draft) => is_stored(secrets, draft, r),
                    Err(e) => r == Err::<NewCa, String>(e),
                },
            r is Err ==> text::begins(r->Err_0@, in_generating(Seq::empty())),
    {
        match self.new_ca(now_ns) {
            Ok(draft) => {
                let data = draft.secret();
                let kept = secrets.set(CA_KEY_SECRET, data);
                proof {
                    assert(call_ensures(S::set, (secrets, CA_KEY_SECRET, data), kept));
                }
                let ghost drafted = draft;
                let r = draft.stored(kept);
                proof {
                    assert(is_stored(secrets, drafted, r));
                }
                r
            },
            Err(e) => Err(e),
        }
    }

    /// Generate a CA, whose private key has yet to be stored.
    pub fn new_ca(&self, now_ns: u64) -> (r: Result<DraftCa, String>)
        ensures
            is_drafted(now_ns, r),
            r is Ok ==> {
                let key = r->Ok_0.ca().key();
                let plan = certs::root_view(now_ns);
                &&& r->Ok_0.ca().plan() == plan
                &&& certs::key_kind(key) is EcdsaP256
                &&& exists|der: Seq<u8>|
                    #[trigger] certs::is_signed(plan, key, plan, key, der)
                        && certs::is_certificate_pem(r->Ok_0.pem(), der)
                &&& certs::is_private_key_pem(r->Ok_0.key_text(), key)
            },
            r is Err ==> text::begins(r->Err_0@, in_generating(Seq::empty())),
    {
        let key = match certs::generate_key() {
            Ok(key) => key,
            Err(e) => {
                return Err(generating_error(e.as_str()));
            },
        };
        let plan = certs::root_plan(now_ns);
        let mut params = match certs::params_for(&plan.names) {
            Ok(params) => params,
            Err(e) => {
                return Err(generating_error(e.as_str()));
            },
        };
        certs::set_subject(&mut params, &plan);
        certs::set_usage(&mut params, &plan);
        certs::set_validity(&mut params, &plan);
        proof {
            assert(certs::params_plan(params).names =~= Seq::<AltName>::empty());
            assert(certs::params_plan(params) == certs::root_view(now_ns));
        }
        let cert = match certs::self_sign(params, &key) {
            Ok(cert) => cert,
            Err(e) => {
                return Err(generating_error(e.as_str()));
            },
        };
        let key_pem = certs::key_text(&key);
        let cert_pem = certs::certificate_text(&cert);
        proof {
            let k = certs::key_der(key)->0;
            assert(certs::is_signed(
                certs::root_view(now_ns),
                k,
                certs::root_view(now_ns),
                k,
                certs::certificate_der(cert),
            ));
        }
        Ok(DraftCa { new: NewCa { ca: LoadedCa { cert, key }, cert_pem }, key_pem })
    }

    /// Put a new CA to use, once its certificate is written.
    pub fn keep(&mut self, new: NewCa)
        ensures
            final(self).issuer() == Some(new.ca()),
            final(self).path() == old(self).path(),
            final(self).cached() == old(self).cached(),
    {
        self.inner = Some(new.ca);
    }

    /// Keep a leaf that was minted for a host.
    pub fn keep_leaf(&mut self, host: &str, minted: Result<Leaf, MintError>) -> (r: Result<
        Arc<Leaf>,
        MintError,
    >)
        ensures
            final(self).issuer() == old(self).issuer(),
            final(self).path() == old(self).path(),
            match minted {
                Ok(leaf) => {
                    &&& r is Ok
                    &&& r->Ok_0@ == leaf@
                    &&& final(self).cached() == used(old(self).cached(), host@, leaf@)
                },
                Err(e) => {
                    &&& r == Err::<Arc<Leaf>, MintError>(e)
                    &&& final(self).cached() == old(self).cached()
                },
            },
    {
        match minted {
            Ok(leaf) => {
                let kept = Arc::new(leaf);
                self.leaf_cache.put(host, kept.clone());
                Ok(kept)
            },
            Err(e) => Err(e),
        }
    }

    /// Mint a leaf certificate for a host, or fetch it from the cache.
    /// `host` is a DNS name or an IP literal.
    pub fn mint(&mut self, host: &str, now_ns: u64) -> (r: Result<Arc<Leaf>, MintError>)
        ensures
            final(self).issuer() == old(self).issuer(),
            final(self).path() == old(self).path(),
            holds(old(self).cached(), host@) ==> {
                &&& r is Ok
                &&& old(self).cached().contains((host@, r->Ok_0@))
                &&& final(self).cached() == used(old(self).cached(), host@, r->Ok_0@)
            },
            !holds(old(self).cached(), host@) && old(self).issuer() is None ==> r
                == Err::<Arc<Leaf>, MintError>(MintError::NotLoaded),
            !holds(old(self).cached(), host@) && old(self).issuer() is Some ==> is_minted(
                old(self).issuer()->0,
                host@,
                now_ns,
                match r {
                    Ok(leaf) => Ok(leaf@),
                    Err(e) => Err(e),
                },
            ),
            !holds(old(self).cached(), host@) && old(self).issuer() is Some
                && !certs::ascii_only(host@) ==> r is Err && (r->Err_0 is Key || r->Err_0 is Host),
            !holds(old(self).cached(), host@) && old(self).issuer() is Some && r is Ok ==> {
                &&& certs::is_signed(
                    certs::leaf_view(host@, now_ns),
                    r->Ok_0@.key_der,
                    old(self).issuer()->0.plan(),
                    old(self).issuer()->0.key(),
                    r->Ok_0@.cert_der,
                )
                &&& certs::key_kind(r->Ok_0@.key_der) is EcdsaP256
                &&& !host@.contains(':') ==> certs::ip_address(host@) is None
                    || certs::ip_address(host@) == Some(host@)
                &&& final(self).cached() == used(old(self).cached(), host@, r->Ok_0@)
            },
            r is Err ==> {
                &&& final(self).cached() == old(self).cached()
                &&& r->Err_0 is NotLoaded <==> old(self).issuer() is None
                &&& r->Err_0 is Host ==> !certs::ascii_only(host@) && r->Err_0->Host_0@
                    == certs::names_error(seq![host@])
            },
            distinct(final(self).cached()),
            final(self).cached().len() <= LEAF_CACHE_CAP,
            final(self).cached().len() <= 1024,
    {
        match self.leaf_cache.get(host) {
            Some(leaf) => {
                proof {
                    use_type_invariant(&self.leaf_cache);
                }
                return Ok(leaf);
            },
            None => {},
        }
        proof {
            use_type_invariant(&self.leaf_cache);
        }
        let minted = match &self.inner {
            None => {
                return Err(MintError::NotLoaded);
            },
            Some(ca) => mint_leaf(ca, host, now_ns),
        };
        let r = self.keep_leaf(host, minted);
        proof {
            use_type_invariant(&self.leaf_cache);
        }
        r
    }
}

/// The leaf that a key makes with what came of signing its certificate, and of
/// asking whether TLS can be served with it.
pub fn leaf_from(
    key_der: Vec<u8>,
    signed: Result<Vec<u8>, String>,
    checked: Result<(), String>,
) -> (r: Result<Leaf, MintError>)
    ensures
        match signed {
            Err(e) => r == Err::<Leaf, MintError>(MintError::Sign(e)),
            Ok(cert_der) => match checked {
                Err(e) => r == Err::<Leaf, MintError>(MintError::Unsupported(e)),
                Ok(_) => r is Ok && r->Ok_0@ == (LeafView {
                    cert_der: cert_der@,
                    key_der: key_der@,
                }),
            },
        },
{
    match signed {
        Err(e) => Err(MintError::Sign(e)),
        Ok(cert_der) => match checked {
            Err(e) => Err(MintError::Unsupported(e)),
            Ok(_) => Ok(Leaf { cert_der, key_der }),
        },
    }
}

/// `r` is the leaf that a key makes with a certificate that came of signing,
/// if TLS can be served with it.
spec fn is_served(
    key: rcgen::KeyPair,
    signed: Result<rcgen::Certificate, String>,
    r: Result<LeafView, MintError>,
) -> bool {
    exists|der: Vec<u8>, checked: Result<(), String>|
        #![trigger call_ensures(certs::check_signing_key, (&der,), checked)]
        {
            &&& call_ensures(certs::check_signing_key, (&der,), checked)
            &&& certs::key_der(key) == Some(der@)
            &&& match signed {
                Err(e) => r == Err::<LeafView, MintError>(MintError::Sign(e)),
                Ok(cert) => match checked {
                    Err(e) => r == Err::<LeafView, MintError>(MintError::Unsupported(e)),
                    Ok(_) => r == Ok::<LeafView, MintError>(
                        LeafView { cert_der: certs::certificate_der(cert), key_der: der@ },
                    ),
                },
            }
        }
}

/// `r` is the leaf for a host that a new key makes: parameters that say what
/// a leaf holds are signed with the issuer's key, unless no certificate can be
/// made for the host.
spec fn is_minted_with(
    ca: LoadedCa,
    host: Seq<char>,
    now_ns: u64,
    key: rcgen::KeyPair,
    r: Result<LeafView, MintError>,
) -> bool {
    if certs::ascii_only(host) {
        exists|params: rcgen::CertificateParams, signed: Result<rcgen::Certificate, String>|
            #![trigger call_ensures(certs::sign, (params, &key, &ca.cert, &ca.key), signed)]
            {
                &&& call_ensures(certs::sign, (params, &key, &ca.cert, &ca.key), signed)
                &&& certs::params_plan(params) == certs::leaf_view(host, now_ns)
                &&& is_served(key, signed, r)
            }
    } else {
        r is Err && r->Err_0 is Host && r->Err_0->Host_0@ == certs::names_error(seq![host])
    }
}

/// `r` is the leaf for a host that an issuer mints. It is there if a key is
/// generated, a certificate can be made for the host, it is signed, and TLS
/// can be served with the key; otherwise it is the error of the first of these
/// that fails.
pub closed spec fn is_minted(
    ca: LoadedCa,
    host: Seq<char>,
    now_ns: u64,
    r: Result<LeafView, MintError>,
) -> bool {
    exists|key: Result<rcgen::KeyPair, String>|
        #![trigger call_ensures(certs::generate_key, (), key)]
        call_ensures(certs::generate_key, (), key) && match key {
            Ok(key) => is_minted_with(ca, host, now_ns, key, r),
            Err(e) => r == Err::<LeafView, MintError>(MintError::Key(e)),
        }
}

/// A minted leaf or why there is none, the leaf by its view.
pub open spec fn minted_view(r: Result<Leaf, MintError>) -> Result<LeafView, MintError> {
    match r {
        Ok(leaf) => Ok(leaf@),
        Err(e) => Err(e),
    }
}

/// Mint a leaf certificate for a host.
fn mint_leaf(ca: &LoadedCa, host: &str, now_ns: u64) -> (r: Result<Leaf, MintError>)
    ensures
        is_minted(*ca, host@, now_ns, minted_view(r)),
        match r {
            Ok(leaf) => {
                &&& certs::ascii_only(host@)
                &&& certs::is_signed(
                    certs::leaf_view(host@, now_ns),
                    leaf@.key_der,
                    ca.plan(),
                    ca.key(),
                    leaf@.cert_der,
                )
                &&& certs::key_kind(leaf@.key_der) is EcdsaP256
                &&& !host@.contains(':') ==> certs::ip_address(host@) is None
                    || certs::ip_address(host@) == Some(host@)
            },
            Err(MintError::NotLoaded) => false,
            Err(MintError::Key(_)) => true,
            Err(MintError::Host(e)) => !certs::ascii_only(host@) && e@ == certs::names_error(
                seq![host@],
            ),
            Err(_) => certs::ascii_only(host@),
        },
{
    proof {
        use_type_invariant(ca);
    }
    let key = match certs::generate_key() {
        Ok(key) => key,
        Err(e) => {
            return Err(MintError::Key(e));
        },
    };
    let plan = certs::leaf_plan(host, now_ns);
    proof {
        assert(text::texts(plan.names@).len() == plan.names@.len());
        assert(text::texts(plan.names@)[0] == plan.names@[0]@);
    }
    let mut params = match certs::params_for(&plan.names) {
        Ok(params) => params,
        Err(e) => {
            return Err(MintError::Host(e));
        },
    };
    certs::set_subject(&mut params, &plan);
    certs::set_usage(&mut params, &plan);
    certs::set_validity(&mut params, &plan);
    let signed = certs::sign(params, &key, &ca.cert, &ca.key);
    let key_der = certs::key_bytes(&key);
    let checked = certs::check_signing_key(&key_der);
    let cert_der = match &signed {
        Ok(cert) => Ok(certs::certificate_bytes(cert)),
        Err(e) => Err(e.clone()),
    };
    let r = leaf_from(key_der, cert_der, checked);
    proof {
        assert(is_served(key, signed, minted_view(r)));
    }
    r
}

/// The certificate on disk after what has to be done was done, by an authority
/// that has an issuer or not: only generating writes one, and that is `fresh`.
pub open spec fn cert_after(
    cert: Option<Seq<char>>,
    loaded: bool,
    fresh: Seq<char>,
) -> Option<Seq<char>> {
    match step_for(loaded, cert is Some) {
        CaStep::Generate => Some(fresh),
        _ => cert,
    }
}

/// The certificate on disk after that was done again and again, by one
/// authority or by several.
pub open spec fn cert_after_all(cert: Option<Seq<char>>, calls: Seq<(bool, Seq<char>)>) -> Option<
    Seq<char>,
>
    decreases calls.len(),
{
    if calls.len() == 0 {
        cert
    } else {
        let before = cert_after_all(cert, calls.drop_last());
        cert_after(before, calls.last().0, calls.last().1)
    }
}

/// A CA is generated once: the first run writes its certificate, and however
/// often and by whomever a CA is then made sure of, the certificate on disk
/// stays the same.
pub proof fn law_ca_is_generated_once(fresh: Seq<char>, calls: Seq<(bool, Seq<char>)>)
    ensures
        cert_after(None, false, fresh) == Some(fresh),
        cert_after_all(Some(fresh), calls) == Some(fresh),
    decreases calls.len(),
{
    if calls.len() > 0 {
        law_ca_is_generated_once(fresh, calls.drop_last());
    }
}

/// A leaf that was used is found again: minting for the same host twice gives
/// the same certificate.
pub proof fn law_second_mint_hits_the_cache(
    uses: Uses,
    host: Seq<char>,
    leaf: LeafView,
    again: LeafView,
)
    requires
        distinct(uses),
        used(uses, host, leaf).contains((host, again)),
    ensures
        holds(used(uses, host, leaf), host),
        again == leaf,
{
    lemma_used_distinct(uses, host, leaf);
    let after = used(uses, host, leaf);
    let n = after.len() - 1;
    assert(after[n] == (host, leaf));
    let i = choose|i: int| 0 <= i < after.len() && after[i] == (host, again);
    if i < n {
        assert(after[i].0 != after[n].0);
    }
}

/// How many other hosts were used since a host was.
pub open spec fn is_age(uses: Uses, host: Seq<char>, leaf: LeafView, age: nat) -> bool {
    age < uses.len() && uses[uses.len() - 1 - age] == (host, leaf)
}

/// Using a leaf for one host makes every other one older by at most one use,
/// and drops none but the oldest of a full cache.
pub proof fn law_recently_used_stays(
    uses: Uses,
    host: Seq<char>,
    leaf: LeafView,
    age: nat,
    other: Seq<char>,
    other_leaf: LeafView,
)
    requires
        distinct(uses),
        host != other,
        is_age(uses, host, leaf, age),
        age + 1 < LEAF_CACHE_CAP,
    ensures
        is_age(used(uses, other, other_leaf), host, leaf, age) || is_age(
            used(uses, other, other_leaf),
            host,
            leaf,
            age + 1,
        ),
{
    let at = uses.len() - 1 - age;
    let rest = without(uses, other);
    if holds(uses, other) {
        let k = choose|i: int| 0 <= i < uses.len() && (#[trigger] uses[i]).0 == other;
        lemma_without_present(uses, other, k);
        if k < at {
            assert(rest[at - 1] == uses[at]);
        } else {
            assert(rest[at] == uses[at]);
        }
    } else {
        lemma_without_absent(uses, other);
    }
}

/// The uses of the leaves of some hosts, one after another.
pub open spec fn used_all(uses: Uses, others: Uses) -> Uses
    decreases others.len(),
{
    if others.len() == 0 {
        uses
    } else {
        used(used_all(uses, others.drop_last()), others.last().0, others.last().1)
    }
}

/// A leaf stays cached through fewer uses of other hosts than the cache has
/// room for, counted from its own last use.
pub proof fn law_cached_while_recent(
    uses: Uses,
    host: Seq<char>,
    leaf: LeafView,
    others: Uses,
)
    requires
        distinct(uses),
        others.len() < LEAF_CACHE_CAP,
        forall|i: int| 0 <= i < others.len() ==> (#[trigger] others[i]).0 != host,
    ensures
        used_all(used(uses, host, leaf), others).contains((host, leaf)),
{
    let age = lemma_age_after(uses, host, leaf, others);
    let after = used_all(used(uses, host, leaf), others);
    assert(after[after.len() - 1 - age] == (host, leaf));
}

/// How old a leaf is after some uses of other hosts.
proof fn lemma_age_after(uses: Uses, host: Seq<char>, leaf: LeafView, others: Uses) -> (age: nat)
    requires
        distinct(uses),
        others.len() < LEAF_CACHE_CAP,
        forall|i: int| 0 <= i < others.len() ==> (#[trigger] others[i]).0 != host,
    ensures
        distinct(used_all(used(uses, host, leaf), others)),
        is_age(used_all(used(uses, host, leaf), others), host, leaf, age),
        age <= others.len(),
    decreases others.len(),
{
    if others.len() == 0 {
        lemma_used_distinct(uses, host, leaf);
        0
    } else {
        let fewer = others.drop_last();
        let last = others.last();
        assert forall|i: int| 0 <= i < fewer.len() implies (#[trigger] fewer[i]).0 != host by {
            assert(others[i].0 != host);
        }
        let age = lemma_age_after(uses, host, leaf, fewer);
        let before = used_all(used(uses, host, leaf), fewer);
        assert(others[others.len() - 1].0 != host);
        law_recently_used_stays(before, host, leaf, age, last.0, last.1);
        lemma_used_distinct(before, last.0, last.1);
        if is_age(used(before, last.0, last.1), host, leaf, age) {
            age
        } else {
            age + 1
        }
    }
}

/// Loading a generated CA again, from its certificate and from the key in the
/// secret store, gives an issuer of the same name and with the same key.
pub proof fn law_reloaded_ca_is_the_same(
    before: CertAuthority,
    after: CertAuthority,
    cert_pem: Seq<char>,
    key_pem: Vec<u8>,
    r: Result<(), String>,
    now_ns: u64,
    key: Seq<u8>,
    der: Seq<u8>,
)
    requires
        certs::is_signed(certs::root_view(now_ns), key, certs::root_view(now_ns), key, der),
        certs::is_certificate_pem(cert_pem, der),
        certs::is_private_key_pem(decode_utf8(key_pem@), key),
        before.loaded(after, cert_pem, Ok(Some(key_pem)), r),
        r is Ok,
    ensures
        after.issuer() is Some,
        after.issuer()->0.key() == key,
        after.issuer()->0.plan().common_name == CA_COMMON_NAME@,
        after.issuer()->0.plan().organization == CA_ORGANIZATION@,
{
}

/// Using a leaf makes it the latest and moves no other past another. A leaf
/// goes only where 1024 others are there already: the one whose last use is
/// longest ago.
pub proof fn law_least_recently_used_goes(uses: Uses, host: Seq<char>, leaf: LeafView, at: int)
    requires
        distinct(uses),
        uses.len() <= 1024,
    ensures
        used(uses, host, leaf).last() == (host, leaf),
        used(uses, host, leaf).len() <= 1024,
        0 <= at < uses.len() && uses[at].0 == host ==> used(uses, host, leaf) == uses.remove(
            at,
        ).push((host, leaf)),
        !holds(uses, host) && uses.len() < 1024 ==> used(uses, host, leaf) == uses.push(
            (host, leaf),
        ),
        !holds(uses, host) && uses.len() == 1024 ==> used(uses, host, leaf) == uses.skip(1).push(
            (host, leaf),
        ),
{
    lemma_used_distinct(uses, host, leaf);
    if 0 <= at < uses.len() && uses[at].0 == host {
        lemma_without_present(uses, host, at);
    }
    if !holds(uses, host) {
        lemma_without_absent(uses, host);
    }
}

/// A CA is loaded from disk where it is not loaded yet and its certificate is
/// there, and generated only where neither is.
pub proof fn law_ca_is_generated_only_at_first(
    authority: &CertAuthority,
    cert_exists: bool,
    r: CaStep,
)
    requires
        call_ensures(CertAuthority::ensure_ca, (authority, cert_exists), r),
    ensures
        r is Ready <==> authority.issuer() is Some,
        r is Load <==> authority.issuer() is None && cert_exists,
        r is Generate <==> authority.issuer() is None && !cert_exists,
{
}

/// A secret file's contents are the secret; a file that is not there is no
/// secret and no error; a file that cannot be read is an error.
pub proof fn law_secret_is_the_files_contents(
    secrets: &FileSecretStore,
    found: FileRead,
    r: Result<Option<Vec<u8>>, String>,
)
    requires
        call_ensures(FileSecretStore::read, (secrets, found), r),
    ensures
        found matches FileRead::Data(data) ==> r == Ok::<Option<Vec<u8>>, String>(Some(data)),
        found is NotFound ==> r == Ok::<Option<Vec<u8>>, String>(None),
        found matches FileRead::Failed(e) ==> r == Err::<Option<Vec<u8>>, String>(e),
{
}

/// What is said of a failure to mint holds its cause, and that of a host that
/// no certificate can be made for the host as well.
pub proof fn law_mint_errors_hold_the_cause(e: MintError, host: Seq<char>)
    ensures
        e matches MintError::Key(cause) ==> e.text(host) == cause@,
        e matches MintError::Sign(cause) ==> e.text(host) == cause@,
        e matches MintError::Host(cause) ==> text::ends(e.text(host), cause@)
            && text::contains_text(e.text(host), host),
        e matches MintError::Unsupported(cause) ==> text::ends(e.text(host), cause@),
        e is NotLoaded ==> e.text(host).len() > 0,
{
    let t = e.text(host);
    reveal_strlit("no certificate authority is loaded");
    reveal_strlit("invalid host for certificate: ");
    reveal_strlit(": ");
    reveal_strlit("unsupported leaf key: ");
    match e {
        MintError::Host(cause) => {
            let n = "invalid host for certificate: "@.len() as int;
            assert(t.skip(t.len() - cause@.len()) =~= cause@);
            assert(t.subrange(n, n + host.len()) =~= host);
            assert(text::occurs_at(t, host, n));
        },
        MintError::Unsupported(cause) => {
            assert(t.skip(t.len() - cause@.len()) =~= cause@);
        },
        _ => {},
    }
}

/// What is said of a CA that could not be loaded or generated ends with the
/// cause, and that of a missing key names the certificate to delete.
pub proof fn law_ca_errors_hold_the_cause(err: Seq<char>, path: Seq<char>)
    ensures
        text::ends(in_loading(err), err),
        text::ends(in_generating(err), err),
        in_loading(err) != in_generating(err),
        text::contains_text(missing_key_text(path), path),
{
    reveal_strlit("loading persisted CA: ");
    reveal_strlit("generating root CA: ");
    let a = in_loading(err);
    let b = in_generating(err);
    assert(a.skip(a.len() - err.len()) =~= err);
    assert(b.skip(b.len() - err.len()) =~= err);
    assert(a.len() != b.len());
    let m = missing_key_text(path);
    let n =
        "CA certificate exists but its private key is missing from the secret store; delete "@.len() as int;
    assert(m.subrange(n, n + path.len()) =~= path);
    assert(text::occurs_at(m, path, n));
}

/// A leaf is there exactly where its certificate was signed and its key can
/// serve TLS, and holds that certificate and that key.
pub proof fn law_leaf_holds_certificate_and_key(
    key_der: Vec<u8>,
    signed: Result<Vec<u8>, String>,
    checked: Result<(), String>,
    r: Result<Leaf, MintError>,
)
    requires
        call_ensures(leaf_from, (key_der, signed, checked), r),
    ensures
        r is Ok <==> signed is Ok && checked is Ok,
        r is Ok ==> r->Ok_0.cert_der@ == signed->Ok_0@ && r->Ok_0.key_der@ == key_der@,
        r is Err && signed is Err ==> r->Err_0 == MintError::Sign(signed->Err_0),
        r is Err && signed is Ok ==> r->Err_0 == MintError::Unsupported(checked->Err_0),
{
}

/// The certificate is kept in the data directory and its private key in the
/// secret store, each under its own name.
pub proof fn law_certificate_and_key_have_their_places(
    data_dir: String,
    authority: CertAuthority,
    draft: &DraftCa,
    name: &'static str,
)
    requires
        call_ensures(CertAuthority::new, (data_dir,), authority),
        call_ensures(DraftCa::secret_name, (draft,), name),
    ensures
        text::ends(authority.path(), "httpmate-ca.pem"@),
        text::begins(authority.path(), data_dir@),
        name@ == "ca-key.pem"@,
{
    config::law_path_is_directory_and_name(data_dir@, "httpmate-ca.pem"@);
}

/// An issuer that was read back is put to use, and a failure to read one
/// changes nothing; neither touches the leaves that are kept.
pub proof fn law_adopting_changes_the_issuer_only(read: Result<LoadedCa, String>)
    ensures
        forall|authority: &mut CertAuthority, r: Result<(), String>|
            #[trigger] call_ensures(CertAuthority::adopt, (authority, read), r) ==> {
                &&& r is Ok <==> read is Ok
                &&& read is Ok ==> final(authority).issuer() == Some(read->Ok_0)
                &&& read is Err ==> final(authority).issuer() == authority.issuer() && text::ends(
                    r->Err_0@,
                    read->Err_0@,
                )
                &&& final(authority).path() == authority.path()
                &&& final(authority).cached() == authority.cached()
            },
{
    if read is Err {
        law_ca_errors_hold_the_cause(read->Err_0@, Seq::empty());
    }
}

/// A leaf that was minted is handed out and is the latest of those kept; where
/// none was minted, those kept stay as they were.
pub proof fn law_minted_leaf_is_kept(host: &str, minted: Result<Leaf, MintError>)
    ensures
        forall|authority: &mut CertAuthority, r: Result<Arc<Leaf>, MintError>|
            #[trigger] call_ensures(CertAuthority::keep_leaf, (authority, host, minted), r) ==> {
                &&& r is Ok <==> minted is Ok
                &&& minted is Ok ==> r->Ok_0@ == minted->Ok_0@ && final(authority).cached().last()
                    == (host@, minted->Ok_0@)
                &&& minted is Err ==> r->Err_0 == minted->Err_0 && final(authority).cached()
                    == authority.cached()
                &&& final(authority).issuer() == authority.issuer()
            },
{
}

} // verus!
