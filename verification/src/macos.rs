//! Platform integration: where the CA's private key is kept, the system proxy
//! toggle, and trust in the CA. Inert on platforms other than macOS.

use vstd::prelude::*;
use vstd::string::*;

use crate::ca::{plain_name, FileSecretStore};
use crate::config;
use crate::networksetup;
use crate::networksetup::{DisablePlan, EnablePlan, ServiceSnapshot};
use crate::text;

verus! {

/// The directory under the data directory that holds secrets where there is
/// no keychain.
pub const SECRETS_DIR: &'static str = "secrets";

/// The name under which secrets are kept in the keychain.
pub const KEYCHAIN_SERVICE: &'static str = "dev.httpmate";

/// The keychain's code for a secret that it does not have.
pub const ITEM_NOT_FOUND: i32 = -25300;

/// What the library runs on.
#[derive(Debug, Clone, Copy, PartialEq, Eq, Structural)]
pub enum Platform {
    MacOs,
    Other,
}

/// The secret store of the macOS keychain.
#[derive(Debug)]
pub struct KeychainSecretStore;

/// An error of the keychain.
#[derive(Debug)]
pub struct KeychainError {
    pub code: i32,
    pub message: String,
}

impl KeychainSecretStore {
    /// The secret that a look into the keychain gives.
    pub fn read(&self, found: Result<Vec<u8>, KeychainError>) -> (r: Result<
        Option<Vec<u8>>,
        String,
    >)
        ensures
            match found {
                Ok(data) => r == Ok::<Option<Vec<u8>>, String>(Some(data)),
                Err(e) => if e.code == ITEM_NOT_FOUND {
                    r == Ok::<Option<Vec<u8>>, String>(None)
                } else {
                    r is Err && r->Err_0@ == "keychain read failed: "@ + e.message@
                },
            },
    {
        match found {
            Ok(data) => Ok(Some(data)),
            Err(e) => {
                if e.code == ITEM_NOT_FOUND {
                    return Ok(None);
                }
                let mut message = "keychain read failed: ".to_owned();
                message.append(e.message.as_str());
                Err(message)
            },
        }
    }

    /// What came of putting a secret into the keychain.
    pub fn written(&self, outcome: Result<(), KeychainError>) -> (r: Result<(), String>)
        ensures
            match outcome {
                Ok(_) => r is Ok,
                Err(e) => r is Err && r->Err_0@ == "keychain write failed: "@ + e.message@,
            },
    {
        match outcome {
            Ok(_) => Ok(()),
            Err(e) => {
                let mut message = "keychain write failed: ".to_owned();
                message.append(e.message.as_str());
                Err(message)
            },
        }
    }
}

/// A platform's secret store.
#[derive(Debug)]
pub enum PlatformSecrets {
    Keychain(KeychainSecretStore),
    Files(FileSecretStore),
}

/// The platform's secret store for the CA private key.
pub fn default_secret_store(platform: Platform, data_dir: &str) -> (r: PlatformSecrets)
    ensures
        match r {
            PlatformSecrets::Keychain(_) => platform is MacOs,
            PlatformSecrets::Files(store) => platform is Other && store.dir@ == config::path_in(
                data_dir@,
                SECRETS_DIR@,
            ),
        },
{
    match platform {
        Platform::MacOs => PlatformSecrets::Keychain(KeychainSecretStore),
        Platform::Other => PlatformSecrets::Files(
            FileSecretStore::new(config::join_path(data_dir, SECRETS_DIR)),
        ),
    }
}

/// The file that holds a secret where there is no keychain.
pub open spec fn secret_path(data_dir: Seq<char>, name: Seq<char>) -> Seq<char> {
    config::path_in(config::path_in(data_dir, SECRETS_DIR@), name)
}

/// No secret lies directly in the data directory, where the certificate is.
pub proof fn law_secrets_lie_apart(data_dir: Seq<char>, name: Seq<char>, file: Seq<char>)
    requires
        plain_name(name),
        plain_name(file),
    ensures
        config::path_in(data_dir, file) != secret_path(data_dir, name),
{
    reveal_strlit("/");
    reveal_strlit("secrets");
    let start = if data_dir.len() == 0 || data_dir.last() == '/' {
        data_dir
    } else {
        data_dir + "/"@
    };
    let dir = config::path_in(data_dir, SECRETS_DIR@);
    assert(dir =~= start + "secrets"@);
    assert(dir.last() == 's');
    let a = secret_path(data_dir, name);
    assert(a =~= dir + "/"@ + name);
    let c = config::path_in(data_dir, file);
    assert(c =~= start + file);
    if a == c {
        assert(a[dir.len() as int] == '/');
        assert(c[start.len() as int + 7] == file[7]);
    }
}

/// What is said where there is no system proxy to configure.
pub open spec fn no_system_proxy() -> Seq<char> {
    "system proxy configuration is only supported on macOS"@
}

/// How the system proxy is turned on for these services. `guard` tells
/// whether it is on already.
pub fn enable_system_proxy(
    platform: Platform,
    services: &Vec<String>,
    guard: bool,
    port: u16,
) -> (r: Result<EnablePlan, String>)
    ensures
        platform is Other ==> r is Err && r->Err_0@ == no_system_proxy(),
        platform is MacOs ==> match r {
            Ok(plan) => {
                &&& services@.len() > 0
                &&& networksetup::commands(plan.set@) == networksetup::set_commands(
                    text::texts(services@),
                    port,
                )
                &&& networksetup::commands(plan.ask@) == (if guard {
                    Seq::<networksetup::Command>::empty()
                } else {
                    networksetup::get_commands(text::texts(services@))
                })
            },
            Err(e) => services@.len() == 0 && e@ == "no active network services found"@,
        },
{
    match platform {
        Platform::MacOs => networksetup::enable(services, guard, port),
        Platform::Other => Err(
            "system proxy configuration is only supported on macOS".to_owned(),
        ),
    }
}

/// How the system proxy is turned off, given the snapshot, if there is one
/// that can be read.
pub fn disable_system_proxy(platform: Platform, snapshot: &Option<Vec<ServiceSnapshot>>) -> (r:
    Result<DisablePlan, String>)
    ensures
        platform is Other ==> r is Err && r->Err_0@ == no_system_proxy(),
        platform is MacOs ==> r is Ok && match r->Ok_0 {
            DisablePlan::Restore(list) => {
                &&& snapshot is Some
                &&& snapshot->0@.len() > 0
                &&& networksetup::commands(list@) == networksetup::snapshot_commands(
                    networksetup::recorded(snapshot->0@),
                )
            },
            DisablePlan::SwitchOff => snapshot is None || snapshot->0@.len() == 0,
        },
{
    match platform {
        Platform::MacOs => Ok(networksetup::disable(snapshot)),
        Platform::Other => Err(
            "system proxy configuration is only supported on macOS".to_owned(),
        ),
    }
}

/// Whether network settings that a crashed run left behind have to be
/// restored, given the files of the data directory.
pub fn restore_if_dangling(platform: Platform, files: &Vec<String>) -> (r: bool)
    ensures
        r == (platform is MacOs && text::texts(files@).contains(networksetup::GUARD_FILE@)),
{
    match platform {
        Platform::MacOs => networksetup::guard_exists(files),
        Platform::Other => false,
    }
}

/// The arguments with which macOS's `security` checks trust in a
/// certificate.
pub fn trust_check_args(cert_path: &str) -> (r: Vec<String>)
    ensures
        text::texts(r@) == seq!["verify-cert"@, "-c"@, cert_path@],
{
    let mut out: Vec<String> = Vec::new();
    out.push("verify-cert".to_owned());
    out.push("-c".to_owned());
    out.push(cert_path.to_owned());
    proof {
        assert(text::texts(out@) =~= seq!["verify-cert"@, "-c"@, cert_path@]);
    }
    out
}

/// Whether the CA is trusted by the system; nothing where that is unknown.
/// `success` is what came of the check, if it could be made.
pub fn ca_trusted(platform: Platform, success: Option<bool>) -> (r: Option<bool>)
    ensures
        r == (match platform {
            Platform::MacOs => success,
            Platform::Other => None,
        }),
{
    match platform {
        Platform::MacOs => success,
        Platform::Other => None,
    }
}

/// The arguments with which macOS's `security` makes a certificate a trusted
/// root in a user's login keychain.
pub open spec fn trust_args(home: Seq<char>, cert_path: Seq<char>) -> Seq<Seq<char>> {
    seq![
        "add-trusted-cert"@,
        "-r"@,
        "trustRoot"@,
        "-k"@,
        home + "/Library/Keychains/login.keychain-db"@,
        cert_path,
    ]
}

/// How the CA is made a trusted root of the user: the arguments for macOS's
/// `security`. `home` is the user's home directory, or why it is unknown.
pub fn install_ca_trust(
    platform: Platform,
    home: Result<String, String>,
    cert_path: &str,
) -> (r: Result<Vec<String>, String>)
    ensures
        platform is Other ==> r is Err && r->Err_0@
            == "CA trust installation is only supported on macOS"@,
        platform is MacOs ==> match home {
            Ok(dir) => r is Ok && text::texts(r->Ok_0@) == trust_args(dir@, cert_path@),
            Err(e) => r == Err::<Vec<String>, String>(e),
        },
{
    match platform {
        Platform::Other => Err("CA trust installation is only supported on macOS".to_owned()),
        Platform::MacOs => match home {
            Err(e) => Err(e),
            Ok(dir) => {
                let mut keychain = dir;
                let ghost start = keychain@;
                keychain.append("/Library/Keychains/login.keychain-db");
                let mut out: Vec<String> = Vec::new();
                out.push("add-trusted-cert".to_owned());
                out.push("-r".to_owned());
                out.push("trustRoot".to_owned());
                out.push("-k".to_owned());
                out.push(keychain);
                out.push(cert_path.to_owned());
                proof {
                    assert(text::texts(out@) =~= trust_args(start, cert_path@));
                }
                Ok(out)
            },
        },
    }
}

/// What came of installing trust.
pub fn trust_installed(success: bool, stderr: &Vec<u8>) -> (r: Result<(), String>)
    ensures
        match r {
            Ok(_) => success,
            Err(e) => !success && e@ == "security add-trusted-cert failed: "@ + text::trimmed(
                text::lossy_text(stderr@),
            ),
        },
{
    if success {
        return Ok(());
    }
    let said = text::lossy(stderr.as_slice());
    let said = text::trim(said.as_str());
    let mut message = "security add-trusted-cert failed: ".to_owned();
    message.append(said.as_str());
    Err(message)
}

/// The CA is made a trusted root in the login keychain of the user whose home
/// directory is given, and on macOS only.
pub proof fn law_trust_goes_to_the_login_keychain(
    platform: Platform,
    home: Result<String, String>,
    cert_path: &str,
    r: Result<Vec<String>, String>,
)
    requires
        call_ensures(install_ca_trust, (platform, home, cert_path), r),
    ensures
        r is Ok <==> platform is MacOs && home is Ok,
        r matches Ok(args) ==> {
            &&& args@.len() == 6
            &&& args@[0]@ == "add-trusted-cert"@
            &&& args@[1]@ == "-r"@
            &&& args@[2]@ == "trustRoot"@
            &&& args@[3]@ == "-k"@
            &&& args@[4]@ == home->Ok_0@ + "/Library/Keychains/login.keychain-db"@
            &&& args@[5]@ == cert_path@
        },
{
    if let Ok(args) = r {
        let t = text::texts(args@);
        assert(t.len() == 6);
        assert(t[0] == args@[0]@ && t[1] == args@[1]@ && t[2] == args@[2]@);
        assert(t[3] == args@[3]@ && t[4] == args@[4]@ && t[5] == args@[5]@);
    }
}

/// A secret that the keychain does not have is no error; every other failure
/// is one, and tells what the keychain said.
pub proof fn law_missing_secret_is_no_error(
    keychain: &KeychainSecretStore,
    found: Result<Vec<u8>, KeychainError>,
    r: Result<Option<Vec<u8>>, String>,
)
    requires
        call_ensures(KeychainSecretStore::read, (keychain, found), r),
    ensures
        found matches Ok(data) ==> r == Ok::<Option<Vec<u8>>, String>(Some(data)),
        found matches Err(e) ==> (r == Ok::<Option<Vec<u8>>, String>(None) <==> e.code == -25300),
        found matches Err(e) ==> (r is Err <==> e.code != -25300),
        found is Err && r is Err ==> text::ends(r->Err_0@, found->Err_0.message@),
{
    if found is Err && r is Err {
        let m = found->Err_0.message@;
        let t = r->Err_0@;
        assert(t.skip(t.len() - m.len()) =~= m);
    }
}

/// A secret file lies under the data directory, in the directory of secrets.
pub proof fn law_secret_files_lie_under_the_data_directory(data_dir: Seq<char>, name: Seq<char>)
    requires
        data_dir.len() > 0,
        data_dir.last() != '/',
    ensures
        secret_path(data_dir, name) == data_dir + seq!['/', 's', 'e', 'c', 'r', 'e', 't', 's', '/']
            + name,
{
    reveal_strlit("/");
    reveal_strlit("secrets");
    let dir = config::path_in(data_dir, SECRETS_DIR@);
    assert(dir.last() == 's');
    assert(secret_path(data_dir, name) =~= data_dir + seq![
        '/',
        's',
        'e',
        'c',
        'r',
        'e',
        't',
        's',
        '/',
    ] + name);
}

/// A crashed run is repaired exactly where it was one of macOS and left its
/// guard behind.
pub proof fn law_crash_is_told_by_the_guard(platform: Platform, files: &Vec<String>, r: bool)
    requires
        call_ensures(restore_if_dangling, (platform, files), r),
    ensures
        r <==> platform is MacOs && exists|i: int|
            0 <= i < files@.len() && (#[trigger] files@[i])@ == "system-proxy.guard"@,
{
    let all = text::texts(files@);
    if r {
        let i = choose|i: int| 0 <= i < all.len() && all[i] == networksetup::GUARD_FILE@;
        assert(files@[i]@ == networksetup::GUARD_FILE@);
    }
    if platform is MacOs && exists|i: int|
        0 <= i < files@.len() && (#[trigger] files@[i])@ == "system-proxy.guard"@ {
        let i = choose|i: int|
            0 <= i < files@.len() && (#[trigger] files@[i])@ == "system-proxy.guard"@;
        assert(all[i] == networksetup::GUARD_FILE@);
    }
}

/// Trust is checked of the certificate itself, and known on macOS only.
pub proof fn law_trust_is_checked_of_the_certificate(
    platform: Platform,
    success: Option<bool>,
    cert_path: &str,
    args: Vec<String>,
    trusted: Option<bool>,
)
    requires
        call_ensures(trust_check_args, (cert_path,), args),
        call_ensures(ca_trusted, (platform, success), trusted),
    ensures
        args@.len() == 3,
        args@[0]@ == "verify-cert"@,
        args@[1]@ == "-c"@,
        args@[2]@ == cert_path@,
        platform is MacOs ==> trusted == success,
        platform is Other ==> trusted is None,
{
    let t = text::texts(args@);
    assert(t.len() == 3);
    assert(t[0] == args@[0]@ && t[1] == args@[1]@ && t[2] == args@[2]@);
}

/// Secrets are kept in the keychain on macOS, and in files elsewhere.
pub proof fn law_secrets_are_kept_by_the_platform(
    platform: Platform,
    data_dir: &str,
    r: PlatformSecrets,
)
    requires
        call_ensures(default_secret_store, (platform, data_dir), r),
    ensures
        r is Keychain <==> platform is MacOs,
        r matches PlatformSecrets::Files(files) ==> text::begins(files.dir@, data_dir@)
            && text::ends(files.dir@, "secrets"@),
{
    config::law_path_is_directory_and_name(data_dir@, SECRETS_DIR@);
}

} // verus!
