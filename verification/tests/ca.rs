use std::collections::HashMap;
use std::sync::{Arc, Mutex};
use std::time::{Duration, SystemTime, UNIX_EPOCH};

use httpmate_core::ca::{
    leaf_from, CaStep, CertAuthority, Leaf, MintError, SecretStore, CA_CERT_FILE, CA_KEY_SECRET,
    LEAF_CACHE_CAP,
};
use httpmate_core::certs::{
    can_write_subject, can_write_text, can_write_type, leaf_plan, root_plan, Authority, KeyUsage,
    Purpose,
};
use httpmate_core::upstream::{admit_root, extra_roots};
use rustls::client::danger::ServerCertVerifier;
use rustls::client::WebPkiServerVerifier;
use rustls::pki_types::{CertificateDer, PrivateKeyDer, PrivatePkcs8KeyDer, ServerName, UnixTime};
use rustls::RootCertStore;

/// Secrets in memory.
#[derive(Default)]
struct MemorySecrets {
    map: Mutex<HashMap<String, Vec<u8>>>,
    broken: bool,
}

impl SecretStore for MemorySecrets {
    fn get(&self, name: &str) -> Result<Option<Vec<u8>>, String> {
        if self.broken {
            return Err("secrets unreadable".into());
        }
        Ok(self.map.lock().unwrap().get(name).cloned())
    }

    fn set(&self, name: &str, data: &[u8]) -> Result<(), String> {
        if self.broken {
            return Err("secrets unwritable".into());
        }
        self.map.lock().unwrap().insert(name.to_string(), data.to_vec());
        Ok(())
    }
}

/// The public certificate on disk, and the secrets.
#[derive(Default)]
struct Disk {
    cert: Option<String>,
    secrets: MemorySecrets,
}

fn now_ns() -> u64 {
    SystemTime::now().duration_since(UNIX_EPOCH).unwrap().as_nanos() as u64
}

fn ca_in(dir: &str) -> CertAuthority {
    CertAuthority::new(dir.to_string())
}

fn ensure(ca: &mut CertAuthority, disk: &mut Disk) -> Result<(), String> {
    match ca.ensure_ca(disk.cert.is_some()) {
        CaStep::Ready => Ok(()),
        CaStep::Load => {
            let pem = disk.cert.clone().unwrap();
            ca.load_ca(&pem, &disk.secrets)
        }
        CaStep::Generate => {
            let new = ca.generate_ca(now_ns(), &disk.secrets)?;
            disk.cert = Some(new.cert_pem().to_string());
            ca.keep(new);
            Ok(())
        }
    }
}

fn mint(ca: &mut CertAuthority, disk: &mut Disk, host: &str) -> Arc<Leaf> {
    match ca.mint(host, now_ns()) {
        Err(MintError::NotLoaded) => {
            ensure(ca, disk).unwrap();
            ca.mint(host, now_ns()).unwrap()
        }
        minted => minted.unwrap(),
    }
}

/// Whether a client that trusts the root accepts the leaf for a name.
fn accepted(root_pem: &str, leaf: &Leaf, name: &str, at: SystemTime) -> bool {
    let mut roots = RootCertStore::empty();
    for der in extra_roots(&vec![root_pem.to_string()]).unwrap() {
        roots.add(CertificateDer::from(der)).unwrap();
    }
    let provider = Arc::new(rustls::crypto::ring::default_provider());
    let verifier =
        WebPkiServerVerifier::builder_with_provider(Arc::new(roots), provider).build().unwrap();
    verifier
        .verify_server_cert(
            &CertificateDer::from(leaf.cert_der.clone()),
            &[],
            &ServerName::try_from(name.to_string()).unwrap(),
            &[],
            UnixTime::since_unix_epoch(at.duration_since(UNIX_EPOCH).unwrap()),
        )
        .is_ok()
}

#[test]
fn generates_persists_and_reloads() {
    let mut disk = Disk::default();
    let mut ca = ca_in("/data");
    assert_eq!(ca.ensure_ca(disk.cert.is_some()), CaStep::Generate);
    ensure(&mut ca, &mut disk).unwrap();
    assert_eq!(ca.ensure_ca(disk.cert.is_some()), CaStep::Ready);
    let pem = disk.cert.clone().unwrap();
    assert!(pem.contains("BEGIN CERTIFICATE"));

    // A fresh instance loads the same CA from disk and secret store.
    let mut ca2 = ca_in("/data");
    ensure(&mut ca2, &mut disk).unwrap();
    assert_eq!(disk.cert.clone().unwrap(), pem);
    let leaf = ca2.mint("example.com", now_ns()).unwrap();
    assert!(accepted(&pem, &leaf, "example.com", SystemTime::now()));
}

#[test]
fn mints_and_caches_leaves() {
    let mut disk = Disk::default();
    let mut ca = ca_in("/data");
    let a = mint(&mut ca, &mut disk, "example.com");
    let b = mint(&mut ca, &mut disk, "example.com");
    assert!(Arc::ptr_eq(&a, &b), "second mint should hit the cache");
    let c = mint(&mut ca, &mut disk, "other.test");
    assert!(!Arc::ptr_eq(&a, &c));
    // IP literals work too (SAN type IP).
    let ip = mint(&mut ca, &mut disk, "127.0.0.1");
    assert!(accepted(&disk.cert.clone().unwrap(), &ip, "127.0.0.1", SystemTime::now()));
}

#[test]
fn leaves_are_for_their_host_and_root_only() {
    let mut disk = Disk::default();
    let mut ca = ca_in("/data");
    let leaf = mint(&mut ca, &mut disk, "example.com");
    let pem = disk.cert.clone().unwrap();
    let now = SystemTime::now();
    let day = Duration::from_secs(86_400);
    assert!(accepted(&pem, &leaf, "example.com", now));
    assert!(!accepted(&pem, &leaf, "other.test", now));
    assert!(accepted(&pem, &leaf, "example.com", now + day * 819));
    assert!(!accepted(&pem, &leaf, "example.com", now + day * 821));
    assert!(!accepted(&pem, &leaf, "example.com", now - day * 2));

    let mut other_disk = Disk::default();
    let mut other = ca_in("/elsewhere");
    mint(&mut other, &mut other_disk, "example.com");
    assert!(!accepted(&other_disk.cert.unwrap(), &leaf, "example.com", now));
}

#[test]
fn leaves_can_be_for_addresses() {
    let mut disk = Disk::default();
    let mut ca = ca_in("/data");
    ensure(&mut ca, &mut disk).unwrap();
    let root = disk.cert.clone().unwrap();
    let now = SystemTime::now();
    let v4 = mint(&mut ca, &mut disk, "10.1.2.3");
    assert!(accepted(&root, &v4, "10.1.2.3", now));
    assert!(!accepted(&root, &v4, "10.1.2.4", now));
    let v6 = mint(&mut ca, &mut disk, "0:0:0:0:0:0:0:1");
    assert!(accepted(&root, &v6, "::1", now));
    assert!(!accepted(&root, &v6, "::2", now));
}

#[test]
fn a_leaf_comes_with_its_own_key() {
    let mut disk = Disk::default();
    let mut ca = ca_in("/data");
    let leaf = mint(&mut ca, &mut disk, "example.com");
    let key = PrivateKeyDer::Pkcs8(PrivatePkcs8KeyDer::from(leaf.key_der.clone()));
    let signer = rustls::crypto::ring::sign::any_supported_type(&key).unwrap();
    let certified =
        rustls::sign::CertifiedKey::new(vec![CertificateDer::from(leaf.cert_der.clone())], signer);
    assert!(certified.keys_match().is_ok());
    let again = mint(&mut ca, &mut disk, "other.test");
    assert_ne!(leaf.key_der, again.key_der);
}

#[test]
fn the_private_key_goes_to_the_secret_store_only() {
    let mut disk = Disk::default();
    let mut ca = ca_in("/data");
    ensure(&mut ca, &mut disk).unwrap();
    let secrets = disk.secrets.map.lock().unwrap();
    assert_eq!(secrets.len(), 1);
    let key = String::from_utf8(secrets[CA_KEY_SECRET].clone()).unwrap();
    assert!(key.contains("BEGIN PRIVATE KEY"));
    let pair = rcgen::KeyPair::from_pem(&key).unwrap();
    assert!(pair.is_compatible(&rcgen::PKCS_ECDSA_P256_SHA256));
    assert!(!disk.cert.as_ref().unwrap().contains("PRIVATE KEY"));
    assert_eq!(ca.cert_path(), "/data/httpmate-ca.pem");
    assert_eq!(CA_CERT_FILE, "httpmate-ca.pem");
}

#[test]
fn a_ca_that_cannot_be_loaded_is_told() {
    let mut disk = Disk::default();
    ensure(&mut ca_in("/data"), &mut disk).unwrap();
    let pem = disk.cert.clone().unwrap();

    let mut ca = ca_in("/data");
    assert_eq!(
        ca.load_ca(&pem, &MemorySecrets::default()).unwrap_err(),
        "loading persisted CA: CA certificate exists but its private key is missing from the \
         secret store; delete /data/httpmate-ca.pem to regenerate"
    );
    let broken = MemorySecrets { broken: true, ..Default::default() };
    assert_eq!(
        ca.load_ca(&pem, &broken).unwrap_err(),
        "loading persisted CA: secrets unreadable"
    );
    assert_eq!(
        ca.load_with(&pem, Ok(Some(vec![0xff]))).unwrap_err(),
        "loading persisted CA: invalid utf-8 sequence of 1 bytes from index 0"
    );
    assert!(ca.load_with(&pem, Ok(Some(b"no key".to_vec()))).is_err());
    assert!(ca.load_ca("no certificate", &disk.secrets).is_err());
    assert!(matches!(ca.mint("h.test", now_ns()), Err(MintError::NotLoaded)));
    assert_eq!(ca.adopt(Err("why".into())).unwrap_err(), "loading persisted CA: why");
    assert!(ca.load_ca(&pem, &disk.secrets).is_ok());
    assert!(ca.mint("h.test", now_ns()).is_ok());

    match ca_in("/data").generate_ca(now_ns(), &broken) {
        Err(e) => assert_eq!(e, "generating root CA: secrets unwritable"),
        Ok(_) => panic!("the key could not be kept"),
    }
}

#[test]
fn hosts_that_are_not_ascii_get_no_certificate() {
    let mut disk = Disk::default();
    let mut ca = ca_in("/data");
    ensure(&mut ca, &mut disk).unwrap();
    match ca.mint("bücher.test", now_ns()) {
        Err(e) => {
            assert!(matches!(e, MintError::Host(_)));
            let text = e.message("bücher.test");
            assert!(text.starts_with("invalid host for certificate: bücher.test: "));
        }
        Ok(_) => panic!("no certificate can be made"),
    }
    assert_eq!(MintError::Key("e".into()).message("h"), "e");
    assert_eq!(MintError::Sign("e".into()).message("h"), "e");
    assert_eq!(MintError::Unsupported("e".into()).message("h"), "unsupported leaf key: e");
}

#[test]
fn the_leaf_used_longest_ago_is_dropped_first() {
    let leaf = |n: usize| Leaf { cert_der: n.to_be_bytes().to_vec(), key_der: Vec::new() };
    let mut ca = ca_in("/data");
    for n in 0..LEAF_CACHE_CAP {
        ca.keep_leaf(&format!("h{n}"), Ok(leaf(n))).unwrap();
    }
    assert!(ca.mint("h0", 0).is_ok());
    ca.keep_leaf("new", Ok(leaf(9999))).unwrap();
    assert!(matches!(ca.mint("h1", 0), Err(MintError::NotLoaded)));
    assert_eq!(ca.mint("h0", 0).unwrap().cert_der, 0usize.to_be_bytes().to_vec());
    assert_eq!(ca.mint("h2", 0).unwrap().cert_der, 2usize.to_be_bytes().to_vec());
    assert_eq!(ca.mint("new", 0).unwrap().cert_der, 9999usize.to_be_bytes().to_vec());
    assert!(matches!(ca.keep_leaf("h2", Err(MintError::Key("e".into()))), Err(MintError::Key(_))));
    ca.keep_leaf("h2", Ok(leaf(1))).unwrap();
    assert_eq!(ca.mint("h2", 0).unwrap().cert_der, 1usize.to_be_bytes().to_vec());
}

#[test]
fn plans_of_certificates() {
    let now = 1_700_000_000_500_000_000;
    let root = root_plan(now);
    assert!(root.names.is_empty());
    assert_eq!(root.common_name, "httpmate Root CA");
    assert_eq!(root.organization, "httpmate");
    assert_eq!(root.authority, Authority::Unbounded);
    assert_eq!(root.usages, vec![KeyUsage::CertSign, KeyUsage::CrlSign]);
    assert!(root.purposes.is_empty());
    assert_eq!(root.not_before, 1_700_000_000 - 86_400);
    assert_eq!(root.not_after, 1_700_000_000 + 3650 * 86_400);
    assert_eq!(root.serial, now);
    let leaf = leaf_plan("h.test", now);
    assert_eq!(leaf.names, vec!["h.test".to_string()]);
    assert_eq!(leaf.common_name, "h.test");
    assert_eq!(leaf.organization, "httpmate");
    assert_eq!(leaf.authority, Authority::Denied);
    assert_eq!(leaf.usages, vec![KeyUsage::DigitalSignature]);
    assert_eq!(leaf.purposes, vec![Purpose::ServerAuth]);
    assert_eq!(leaf.not_before, 1_700_000_000 - 86_400);
    assert_eq!(leaf.not_after, 1_700_000_000 + 820 * 86_400);
    assert_eq!(leaf.serial, now);
    assert_ne!(leaf_plan("a", 1).serial, leaf_plan("b", 2).serial);
    assert_ne!(leaf_plan("a", 1).serial, root_plan(2).serial);
    assert_eq!(leaf_plan("h", 0).not_before, -86_400);
    assert!(leaf_plan("h", u64::MAX).not_after > 0);
}

#[test]
fn certificates_can_be_made_at_any_time() {
    for now in [0, u64::MAX] {
        let mut disk = Disk::default();
        let mut ca = ca_in("/data");
        let new = ca.generate_ca(now, &disk.secrets).unwrap();
        disk.cert = Some(new.cert_pem().to_string());
        ca.keep(new);
        assert!(ca.mint("h.test", now).is_ok());
        ca_in("/data").load_ca(disk.cert.as_ref().unwrap(), &disk.secrets).unwrap();
    }
}

#[test]
fn extra_roots_are_read_in_order() {
    let mut one = Disk::default();
    ensure(&mut ca_in("/1"), &mut one).unwrap();
    let mut two = Disk::default();
    ensure(&mut ca_in("/2"), &mut two).unwrap();
    let (a, b) = (one.cert.unwrap(), two.cert.unwrap());
    let single = |pem: &String| extra_roots(&vec![pem.clone()]).unwrap().remove(0);
    let both = extra_roots(&vec![format!("junk\n{a}{b}"), String::new(), a.clone()]).unwrap();
    assert_eq!(both, vec![single(&a), single(&b), single(&a)]);
    assert!(extra_roots(&Vec::new()).unwrap().is_empty());
    assert!(extra_roots(&vec!["no pem".to_string()]).unwrap().is_empty());
}

#[test]
fn bad_extra_roots_are_told() {
    let unclosed = "-----BEGIN CERTIFICATE-----\nAAAA\n".to_string();
    let err = extra_roots(&vec![unclosed.clone()]).unwrap_err();
    assert!(err.starts_with("parsing extra root certificate: section end"), "{err}");
    let no_cert = "-----BEGIN CERTIFICATE-----\nAAAA\n-----END CERTIFICATE-----\n".to_string();
    let err = extra_roots(&vec![no_cert, unclosed]).unwrap_err();
    assert!(err.starts_with("adding extra root certificate: "), "{err}");
    assert_eq!(admit_root(Ok(vec![1]), None), Ok(vec![1]));
    assert_eq!(
        admit_root(Ok(vec![1]), Some("bad".into())),
        Err("adding extra root certificate: bad".into())
    );
    assert_eq!(
        admit_root(Err("bad".into()), None),
        Err("parsing extra root certificate: bad".into())
    );
}

/// A CA of someone else, with its key.
fn foreign_ca(fill: impl Fn(&mut rcgen::CertificateParams)) -> (String, Vec<u8>) {
    let key = rcgen::KeyPair::generate().unwrap();
    let mut params = rcgen::CertificateParams::new(Vec::new()).unwrap();
    params.is_ca = rcgen::IsCa::Ca(rcgen::BasicConstraints::Constrained(0));
    params.key_usages = vec![rcgen::KeyUsagePurpose::KeyCertSign];
    fill(&mut params);
    let cert = params.self_signed(&key).unwrap();
    (cert.pem(), key.serialize_pem().into_bytes())
}

#[test]
fn a_ca_of_someone_else_issues_in_its_own_name() {
    let (pem, key) = foreign_ca(|params| {
        let country = rcgen::DnValue::PrintableString("US".try_into().unwrap());
        params.distinguished_name.push(rcgen::DnType::CountryName, country);
        params.distinguished_name.push(rcgen::DnType::CustomDnType(vec![2, 5, 4, 5]), "serial");
        params.not_after = rcgen::date_time_ymd(2060, 1, 1);
    });
    let mut ca = ca_in("/data");
    ca.load_with(&pem, Ok(Some(key))).unwrap();
    let leaf = ca.mint("h.test", now_ns()).unwrap();
    assert!(accepted(&pem, &leaf, "h.test", SystemTime::now()));
}

#[test]
fn a_ca_whose_subject_cannot_be_written_is_refused() {
    let (pem, key) = foreign_ca(|params| {
        params.distinguished_name.push(rcgen::DnType::CustomDnType(vec![2, 999, 1]), "x");
    });
    let mut ca = ca_in("/data");
    assert_eq!(
        ca.load_with(&pem, Ok(Some(key))).unwrap_err(),
        "loading persisted CA: the subject of the CA certificate cannot be written"
    );
    assert!(matches!(ca.mint("h.test", now_ns()), Err(MintError::NotLoaded)));

    assert!(can_write_type(&vec![2, 5, 4, 3]));
    assert!(can_write_type(&vec![1, 39]));
    assert!(!can_write_type(&vec![1, 40]));
    assert!(!can_write_type(&vec![3, 19]));
    assert!(!can_write_type(&vec![2]));
    assert!(!can_write_type(&vec![2, u64::MAX]));
    assert!(can_write_text("Root CA (1)=/'+,-.:"));
    assert!(!can_write_text("Who?"));
    assert!(!can_write_text("*.test"));
    assert!(can_write_subject(&Vec::new()));
    assert!(can_write_subject(&vec![(None, None), (None, Some("US".into()))]));
    assert!(!can_write_subject(&vec![(None, None), (Some(Vec::new()), None)]));
    assert!(!can_write_subject(&vec![(None, Some("?".into()))]));
}

#[test]
fn a_leaf_is_what_signing_and_checking_gave() {
    let leaf = leaf_from(vec![1], Ok(vec![2]), Ok(())).unwrap();
    assert_eq!((leaf.key_der, leaf.cert_der), (vec![1], vec![2]));
    match leaf_from(vec![1], Err("unsigned".into()), Err("unfit".into())) {
        Err(e) => assert_eq!(e.message("h"), "unsigned"),
        Ok(_) => panic!("there is no certificate"),
    }
    match leaf_from(vec![1], Ok(vec![2]), Err("unfit".into())) {
        Err(e) => assert_eq!(e.message("h"), "unsupported leaf key: unfit"),
        Ok(_) => panic!("the key is of no use"),
    }
}

#[test]
fn the_certificate_stays_the_same_however_often_a_ca_is_made_sure_of() {
    let mut disk = Disk::default();
    let mut ca = ca_in("/data");
    ensure(&mut ca, &mut disk).unwrap();
    let pem = disk.cert.clone();
    ensure(&mut ca, &mut disk).unwrap();
    for _ in 0..3 {
        let mut other = ca_in("/data");
        ensure(&mut other, &mut disk).unwrap();
        ensure(&mut other, &mut disk).unwrap();
    }
    assert_eq!(disk.cert, pem);
}

#[test]
fn a_draft_says_what_is_to_be_stored() {
    let ca = ca_in("/data");
    let draft = ca.new_ca(now_ns()).unwrap();
    assert_eq!(draft.secret_name(), "ca-key.pem");
    let key = String::from_utf8(draft.secret().to_vec()).unwrap();
    assert!(key.contains("BEGIN PRIVATE KEY"));
    let new = draft.stored(Ok(())).unwrap();
    assert!(new.cert_pem().contains("BEGIN CERTIFICATE"));
    let mut other = ca_in("/data");
    other.load_with(new.cert_pem(), Ok(Some(key.into_bytes()))).unwrap();
    match ca.new_ca(now_ns()).unwrap().stored(Err("full".into())) {
        Err(e) => assert_eq!(e, "generating root CA: full"),
        Ok(_) => panic!("the key was not kept"),
    }
}

#[test]
fn a_ca_that_does_not_say_that_it_is_one_still_issues() {
    let (pem, key) = foreign_ca(|params| params.is_ca = rcgen::IsCa::NoCa);
    let mut ca = ca_in("/data");
    ca.load_with(&pem, Ok(Some(key))).unwrap();
    assert!(ca.mint("h.test", now_ns()).is_ok());
}

#[test]
fn only_the_private_key_is_stored() {
    let mut disk = Disk::default();
    ensure(&mut ca_in("/data"), &mut disk).unwrap();
    let names: Vec<String> = disk.secrets.map.lock().unwrap().keys().cloned().collect();
    assert_eq!(names, vec![CA_KEY_SECRET.to_string()]);
}
