//! Where the application keeps its state, and the user's proxy settings.

use vstd::prelude::*;
use vstd::string::*;

use crate::text;

verus! {

/// The file under the data directory that holds the settings.
pub const SETTINGS_FILE: &'static str = "settings.json";

/// The path of a file in a directory.
pub open spec fn path_in(dir: Seq<char>, name: Seq<char>) -> Seq<char> {
    if dir.len() == 0 || dir.last() == '/' {
        dir + name
    } else {
        dir + "/"@ + name
    }
}

/// The path of a file, by its relative name, in a directory.
pub fn join_path(dir: &str, name: &str) -> (r: String)
    ensures
        r@ == path_in(dir@, name@),
{
    let v = text::chars_of(dir);
    let n: usize = v.len();
    let mut out = dir.to_owned();
    if n > 0 && v[n - 1] != '/' {
        out.append("/");
    }
    out.append(name);
    out
}

/// Where the application keeps its state (database, CA cert, settings, blobs).
#[derive(Debug, Clone)]
pub struct AppConfig {
    pub data_dir: String,
}

/// User-tunable proxy settings, persisted as settings.json in the data dir.
#[derive(Debug)]
pub struct ProxySettings {
    /// Port the proxy listens on. 0 picks an ephemeral port.
    pub port: u16,
    /// Bind address. Localhost by default; LAN exposure is an explicit opt-in.
    pub bind_addr: String,
    /// Max bytes of each request/response body captured for inspection.
    /// Bodies stream through unmodified regardless; beyond this cap the
    /// recording is marked truncated.
    pub body_capture_limit: usize,
    /// Hosts that are tunneled opaquely instead of intercepted. Patterns are
    /// an exact host or a `*.suffix` wildcard.
    pub passthrough_hosts: Vec<String>,
    /// Extra PEM root certificates trusted for upstream TLS (e.g. a local
    /// dev server's self-signed cert, or a corporate root).
    pub extra_root_certs_pem: Vec<String>,
}

/// The settings of a first run.
pub open spec fn is_default_settings(s: ProxySettings) -> bool {
    &&& s.port == 8888
    &&& s.bind_addr@ == "127.0.0.1"@
    &&& s.body_capture_limit == 10 * 1024 * 1024
    &&& s.passthrough_hosts@.len() == 0
    &&& s.extra_root_certs_pem@.len() == 0
}

/// Two settings say the same.
pub open spec fn same_settings(a: ProxySettings, b: ProxySettings) -> bool {
    &&& a.port == b.port
    &&& a.bind_addr@ == b.bind_addr@
    &&& a.body_capture_limit == b.body_capture_limit
    &&& text::texts(a.passthrough_hosts@) == text::texts(b.passthrough_hosts@)
    &&& text::texts(a.extra_root_certs_pem@) == text::texts(b.extra_root_certs_pem@)
}

impl Default for ProxySettings {
    fn default() -> (r: Self)
        ensures
            is_default_settings(r),
    {
        ProxySettings {
            port: 8888,
            bind_addr: "127.0.0.1".to_owned(),
            body_capture_limit: 10 * 1024 * 1024,
            passthrough_hosts: Vec::new(),
            extra_root_certs_pem: Vec::new(),
        }
    }
}

/// A copy of a list of strings.
pub fn clone_texts(v: &Vec<String>) -> (r: Vec<String>)
    ensures
        r@ == v@,
{
    let mut out: Vec<String> = Vec::new();
    let mut i: usize = 0;
    while i < v.len()
        invariant
            i <= v@.len(),
            out@ == v@.take(i as int),
        decreases v@.len() - i,
    {
        out.push(v[i].clone());
        i += 1;
        proof {
            assert(out@ =~= v@.take(i as int));
        }
    }
    proof {
        assert(v@.take(i as int) =~= v@);
    }
    out
}

impl Clone for ProxySettings {
    fn clone(&self) -> (r: Self)
        ensures
            same_settings(*self, r),
            r.port == self.port,
            r.bind_addr == self.bind_addr,
            r.body_capture_limit == self.body_capture_limit,
            r.passthrough_hosts@ == self.passthrough_hosts@,
            r.extra_root_certs_pem@ == self.extra_root_certs_pem@,
    {
        ProxySettings {
            port: self.port,
            bind_addr: self.bind_addr.clone(),
            body_capture_limit: self.body_capture_limit,
            passthrough_hosts: clone_texts(&self.passthrough_hosts),
            extra_root_certs_pem: clone_texts(&self.extra_root_certs_pem),
        }
    }
}

impl ProxySettings {
    /// The settings to run with: the persisted ones, or the default where
    /// there are none or they could not be read.
    pub fn load(persisted: Option<ProxySettings>) -> (r: Self)
        ensures
            match persisted {
                Some(s) => r == s,
                None => is_default_settings(r),
            },
    {
        match persisted {
            Some(s) => s,
            None => ProxySettings::default(),
        }
    }
}

/// A first run listens on localhost only, at port 8888, captures ten mebibytes
/// of each body, tunnels no host and trusts no further root.
pub proof fn law_first_run_is_local(s: ProxySettings)
    requires
        is_default_settings(s),
    ensures
        s.port == 8888,
        s.bind_addr@ == "127.0.0.1"@,
        s.body_capture_limit == 10_485_760,
        s.passthrough_hosts@.len() == 0,
        s.extra_root_certs_pem@.len() == 0,
{
}

/// The path of a file in a directory begins with the directory and ends with
/// the name, and between the two stands a slash unless the directory has it
/// already; in no directory it is the name.
pub proof fn law_path_is_directory_and_name(dir: Seq<char>, name: Seq<char>)
    ensures
        path_in(dir, name).len() >= dir.len() + name.len(),
        path_in(dir, name).take(dir.len() as int) == dir,
        path_in(dir, name).skip(path_in(dir, name).len() - name.len()) == name,
        dir.len() == 0 ==> path_in(dir, name) == name,
        dir.len() > 0 ==> path_in(dir, name)[path_in(dir, name).len() - name.len() - 1] == '/',
        dir.len() > 0 && dir.last() != '/' ==> path_in(dir, name).len() == dir.len() + 1
            + name.len(),
        dir.len() > 0 && dir.last() == '/' ==> path_in(dir, name).len() == dir.len() + name.len(),
{
    reveal_strlit("/");
    let p = path_in(dir, name);
    assert(p.take(dir.len() as int) =~= dir);
    assert(p.skip(p.len() - name.len()) =~= name);
}

/// Settings that say the same are the same in every setting.
pub proof fn law_same_settings_agree(a: ProxySettings, b: ProxySettings, i: int)
    requires
        same_settings(a, b),
    ensures
        a.port == b.port,
        a.bind_addr@ == b.bind_addr@,
        a.body_capture_limit == b.body_capture_limit,
        a.passthrough_hosts@.len() == b.passthrough_hosts@.len(),
        a.extra_root_certs_pem@.len() == b.extra_root_certs_pem@.len(),
        0 <= i < a.passthrough_hosts@.len() ==> a.passthrough_hosts@[i]@
            == b.passthrough_hosts@[i]@,
        0 <= i < a.extra_root_certs_pem@.len() ==> a.extra_root_certs_pem@[i]@
            == b.extra_root_certs_pem@[i]@,
{
    let x = text::texts(a.passthrough_hosts@);
    let y = text::texts(b.passthrough_hosts@);
    assert(x.len() == y.len());
    let u = text::texts(a.extra_root_certs_pem@);
    let v = text::texts(b.extra_root_certs_pem@);
    assert(u.len() == v.len());
    if 0 <= i < a.passthrough_hosts@.len() {
        assert(x[i] == y[i]);
    }
    if 0 <= i < a.extra_root_certs_pem@.len() {
        assert(u[i] == v[i]);
    }
}

/// A path that is put together begins with its directory and ends with its
/// name.
pub proof fn law_joined_path_has_both_ends(dir: &str, name: &str, r: String)
    requires
        call_ensures(join_path, (dir, name), r),
    ensures
        text::begins(r@, dir@),
        text::ends(r@, name@),
        r@.len() <= dir@.len() + 1 + name@.len(),
{
    law_path_is_directory_and_name(dir@, name@);
}

/// A run has the settings that were persisted, and those of a first run only
/// where there are none.
pub proof fn law_persisted_settings_are_used(
    persisted: Option<ProxySettings>,
    r: ProxySettings,
)
    requires
        call_ensures(ProxySettings::load, (persisted,), r),
    ensures
        persisted is Some ==> r == persisted->0,
        persisted is None ==> r.port == 8888 && r.bind_addr@ == "127.0.0.1"@
            && r.body_capture_limit == 10_485_760,
{
}

} // verus!
