use std::collections::BTreeMap;

use httpmate_core::ca::{FileRead, FileSecretStore};
use httpmate_core::config::{join_path, ProxySettings};
use httpmate_core::controller::{
    bad_bind_address, ca_state, Controller, StartPlan, TogglePlan,
};
use httpmate_core::events::{CaState, ProxyEvent, ProxyStatus, TransactionSummary, TxState};
use httpmate_core::macos::{
    ca_trusted, default_secret_store, disable_system_proxy, enable_system_proxy,
    install_ca_trust, restore_if_dangling, trust_check_args, trust_installed, KeychainError,
    KeychainSecretStore, Platform, PlatformSecrets,
};
use httpmate_core::networksetup::{
    disable, disable_steps, enable, enable_steps, get_state, guard_exists, list_services, run,
    switch_off, take_snapshot, DisablePlan, NetCommand, NetStep, ProxyState, ServiceSnapshot,
};
use httpmate_core::pump::{Emit, EventPump};

fn strings(list: &[&str]) -> Vec<String> {
    list.iter().map(|s| s.to_string()).collect()
}

fn lines(list: &[NetCommand]) -> Vec<String> {
    list.iter().map(|c| c.args().join(" ")).collect()
}

#[test]
fn services_are_listed() {
    let out = "An asterisk (*) denotes that a network service is disabled.\n\
               Wi-Fi\n*Thunderbolt Bridge\n\n  USB LAN \r\n *Old\n";
    assert_eq!(list_services(out), strings(&["Wi-Fi", "USB LAN"]));
    assert!(list_services("banner only").is_empty());
    assert!(list_services("").is_empty());
}

#[test]
fn proxy_states_are_read() {
    let s = get_state("Enabled: Yes\nServer: proxy.test\nPort: 3128\nAuthenticated Proxy Enabled: 0\n");
    assert!(s.enabled);
    assert_eq!(s.server, "proxy.test");
    assert_eq!(s.port, "3128");
    let s = get_state("Enabled : YES\nServer: a:b\nno colon\nServer: last\n");
    assert!(s.enabled);
    assert_eq!(s.server, "last");
    assert_eq!(s.port, "");
    let s = get_state("Enabled: No\nServer:\nPort: 0\n");
    assert!(!s.enabled);
    assert_eq!(s.server, "");
    assert_eq!(s.port, "0");
}

#[test]
fn commands_have_arguments() {
    assert_eq!(NetCommand::ListServices.args(), strings(&["-listallnetworkservices"]));
    let get = NetCommand::Get { service: "USB LAN".into(), secure: true };
    assert_eq!(get.args(), strings(&["-getsecurewebproxy", "USB LAN"]));
}

#[test]
fn enabling_points_every_service_at_the_port() {
    let services = strings(&["Wi-Fi", "USB"]);
    let plan = enable(&services, false, 8888).unwrap();
    assert_eq!(
        lines(&plan.ask),
        vec![
            "-getwebproxy Wi-Fi",
            "-getsecurewebproxy Wi-Fi",
            "-getwebproxy USB",
            "-getsecurewebproxy USB"
        ]
    );
    assert_eq!(
        lines(&plan.set),
        vec![
            "-setwebproxy Wi-Fi 127.0.0.1 8888",
            "-setsecurewebproxy Wi-Fi 127.0.0.1 8888",
            "-setwebproxy USB 127.0.0.1 8888",
            "-setsecurewebproxy USB 127.0.0.1 8888"
        ]
    );
    let again = enable(&services, true, 9999).unwrap();
    assert!(again.ask.is_empty());
    assert_eq!(again.set.len(), 4);
    assert_eq!(enable(&Vec::new(), false, 1).unwrap_err(), "no active network services found");
}

#[test]
fn disabling_restores_the_snapshot() {
    let outputs = strings(&[
        "Enabled: Yes\nServer: corp\nPort: 3128\n",
        "Enabled: No\nServer: corp\nPort: 3128\n",
        "Enabled: Yes\nServer:\nPort: 0\n",
        "Enabled: Yes\nServer: s\nPort: 1\n",
    ]);
    let snapshot = take_snapshot(&strings(&["Wi-Fi", "USB"]), &outputs);
    assert_eq!(snapshot.len(), 2);
    assert_eq!(snapshot[1].service, "USB");
    match disable(&Some(snapshot)) {
        DisablePlan::Restore(list) => assert_eq!(
            lines(&list),
            vec![
                "-setwebproxy Wi-Fi corp 3128",
                "-setwebproxystate Wi-Fi on",
                "-setsecurewebproxy Wi-Fi corp 3128",
                "-setsecurewebproxystate Wi-Fi off",
                "-setwebproxystate USB off",
                "-setsecurewebproxy USB s 1",
                "-setsecurewebproxystate USB on"
            ]
        ),
        DisablePlan::SwitchOff => panic!("the snapshot should be restored"),
    }
}

fn step_names(list: &[NetStep]) -> Vec<String> {
    list.iter()
        .map(|step| match step {
            NetStep::SaveSnapshot(list) => format!("save {}", list.len()),
            NetStep::SaveGuard => "save guard".to_string(),
            NetStep::Run(c) => c.args().join(" "),
            NetStep::RemoveSnapshot => "remove snapshot".to_string(),
            NetStep::RemoveGuard => "remove guard".to_string(),
        })
        .collect()
}

#[test]
fn the_snapshot_is_saved_first_and_removed_last() {
    let services = strings(&["Wi-Fi"]);
    let outputs = strings(&["Enabled: No\n", "Enabled: No\n"]);
    let plan = enable(&services, false, 1).unwrap();
    assert_eq!(
        step_names(&enable_steps(plan, &services, false, &outputs)),
        vec![
            "save 1",
            "save guard",
            "-setwebproxy Wi-Fi 127.0.0.1 1",
            "-setsecurewebproxy Wi-Fi 127.0.0.1 1"
        ]
    );
    let plan = enable(&services, true, 2).unwrap();
    assert_eq!(
        step_names(&enable_steps(plan, &services, true, &Vec::new())),
        vec!["-setwebproxy Wi-Fi 127.0.0.1 2", "-setsecurewebproxy Wi-Fi 127.0.0.1 2"]
    );
    let off = switch_off(&services);
    assert_eq!(
        step_names(&disable_steps(off)),
        vec![
            "-setwebproxystate Wi-Fi off",
            "-setsecurewebproxystate Wi-Fi off",
            "remove guard",
            "remove snapshot"
        ]
    );
}

/// The proxies of the services, as `networksetup` would keep them, with the
/// files that make them recoverable.
#[derive(Clone, Default)]
struct Simulated {
    net: BTreeMap<(String, bool), (bool, String, String)>,
    snapshot: Option<Vec<(String, [(bool, String, String); 2])>>,
    guard: bool,
}

impl Simulated {
    fn get(&self, service: &str, secure: bool) -> String {
        let (enabled, server, port) = self.net[&(service.to_string(), secure)].clone();
        let enabled = if enabled { "Yes" } else { "No" };
        format!("Enabled: {enabled}\nServer: {server}\nPort: {port}\n")
    }

    /// Whether every proxy is what it was before; one without a server is off.
    fn given_back(&self, before: &Simulated) -> bool {
        self.net.iter().all(|(key, now)| {
            let was = &before.net[key];
            if was.1.is_empty() {
                !now.0
            } else {
                now == was
            }
        })
    }

    fn take(&mut self, step: &NetStep) {
        match step {
            NetStep::SaveSnapshot(list) => {
                let keep = |s: &ProxyState| (s.enabled, s.server.clone(), s.port.clone());
                let list = list.iter().map(|s| (s.service.clone(), [keep(&s.web), keep(&s.secure)]));
                self.snapshot = Some(list.collect());
            }
            NetStep::SaveGuard => self.guard = true,
            NetStep::RemoveSnapshot => self.snapshot = None,
            NetStep::RemoveGuard => self.guard = false,
            NetStep::Run(command) => {
                let args = command.args();
                let secure = args[0].contains("secure");
                let entry = self.net.get_mut(&(args[1].clone(), secure)).unwrap();
                match args[0].as_str() {
                    "-setwebproxy" | "-setsecurewebproxy" => {
                        *entry = (true, args[2].clone(), args[3].clone());
                    }
                    _ => entry.0 = args[2] == "on",
                }
            }
        }
    }

    fn enable_steps(&self, services: &Vec<String>, port: u16) -> Vec<NetStep> {
        let plan = enable(services, self.guard, port).unwrap();
        let answer = |c: &NetCommand| match c {
            NetCommand::Get { service, secure } => self.get(service, *secure),
            other => panic!("unexpected question: {other:?}"),
        };
        let outputs: Vec<String> = plan.ask.iter().map(answer).collect();
        enable_steps(plan, services, self.guard, &outputs)
    }

    fn disable_steps(&self) -> Vec<NetStep> {
        let state = |s: &(bool, String, String)| ProxyState {
            enabled: s.0,
            server: s.1.clone(),
            port: s.2.clone(),
        };
        let snapshot = self.snapshot.as_ref().map(|list| {
            let entries = list.iter().map(|(service, [web, secure])| ServiceSnapshot {
                service: service.clone(),
                web: state(web),
                secure: state(secure),
            });
            entries.collect()
        });
        match disable(&snapshot) {
            DisablePlan::Restore(list) => disable_steps(list),
            DisablePlan::SwitchOff => panic!("there should be a snapshot"),
        }
    }

    /// What the next launch does.
    fn repair(&mut self) {
        if self.guard {
            for step in self.disable_steps() {
                self.take(&step);
            }
        }
    }
}

fn some_network() -> (Simulated, Vec<String>) {
    let mut sim = Simulated::default();
    let mut set = |service: &str, secure: bool, on: bool, server: &str, port: &str| {
        let key = (service.to_string(), secure);
        sim.net.insert(key, (on, server.to_string(), port.to_string()));
    };
    set("Wi-Fi", false, true, "corp", "3128");
    set("Wi-Fi", true, false, "corp", "3128");
    set("USB", false, false, "", "0");
    set("USB", true, true, "s", "1");
    set("Off", false, true, "other", "2");
    set("Off", true, true, "other", "2");
    (sim, strings(&["Wi-Fi", "USB"]))
}

#[test]
fn turning_the_proxy_on_and_off_changes_nothing() {
    let (before, services) = some_network();
    let mut sim = before.clone();
    for port in [8888, 9999] {
        for step in sim.enable_steps(&services, port) {
            sim.take(&step);
        }
        assert_eq!(sim.net[&("USB".to_string(), false)].2, port.to_string());
    }
    assert!(sim.guard);
    assert!(!sim.given_back(&before));
    for step in sim.disable_steps() {
        sim.take(&step);
    }
    assert!(!sim.guard);
    assert!(sim.snapshot.is_none());
    assert!(sim.given_back(&before));
    let off = sim.net[&("Wi-Fi".to_string(), true)].clone();
    assert_eq!(off, (false, "corp".to_string(), "3128".to_string()));
}

#[test]
fn an_interrupted_toggle_is_repaired_on_next_launch() {
    let (before, services) = some_network();
    let on = before.enable_steps(&services, 8888);
    for k in 0..=on.len() {
        let mut sim = before.clone();
        on[..k].iter().for_each(|step| sim.take(step));
        sim.repair();
        assert!(sim.given_back(&before), "enabling interrupted after {k} steps");
    }
    let mut enabled = before.clone();
    on.iter().for_each(|step| enabled.take(step));
    let off = enabled.disable_steps();
    for k in 0..=off.len() {
        let mut sim = enabled.clone();
        off[..k].iter().for_each(|step| sim.take(step));
        sim.repair();
        assert!(sim.given_back(&before), "disabling interrupted after {k} steps");
        // A snapshot that was left behind does no harm to the next run.
        let again = sim.enable_steps(&services, 9999);
        again.iter().for_each(|step| sim.take(step));
        sim.repair();
        assert!(sim.given_back(&before), "turned on again after {k} steps");
    }
}

#[test]
fn disabling_without_a_snapshot_switches_everything_off() {
    assert!(matches!(disable(&None), DisablePlan::SwitchOff));
    assert!(matches!(disable(&Some(Vec::new())), DisablePlan::SwitchOff));
    assert_eq!(
        lines(&switch_off(&strings(&["Wi-Fi"]))),
        vec!["-setwebproxystate Wi-Fi off", "-setsecurewebproxystate Wi-Fi off"]
    );
    assert!(switch_off(&Vec::new()).is_empty());
}

#[test]
fn failed_commands_are_told() {
    let command = NetCommand::Switch { service: "Wi-Fi".into(), secure: false, on: true };
    assert_eq!(run(&command, true, &b"fine\xff".to_vec(), &Vec::new()).unwrap(), "fine\u{fffd}");
    assert_eq!(
        run(&command, false, &Vec::new(), &b" no rights \n".to_vec()).unwrap_err(),
        "networksetup -setwebproxystate Wi-Fi on failed: no rights"
    );
}

#[test]
fn a_dangling_guard_is_found_on_macos_only() {
    let with = strings(&["session.db", "system-proxy.guard"]);
    let without = strings(&["session.db"]);
    assert!(guard_exists(&with));
    assert!(!guard_exists(&without));
    assert!(restore_if_dangling(Platform::MacOs, &with));
    assert!(!restore_if_dangling(Platform::MacOs, &without));
    assert!(!restore_if_dangling(Platform::Other, &with));
}

#[test]
fn the_system_proxy_is_macos_only() {
    let services = strings(&["Wi-Fi"]);
    let message = "system proxy configuration is only supported on macOS";
    assert_eq!(enable_system_proxy(Platform::Other, &services, false, 1).unwrap_err(), message);
    assert_eq!(disable_system_proxy(Platform::Other, &None).unwrap_err(), message);
    assert_eq!(enable_system_proxy(Platform::MacOs, &services, true, 1).unwrap().set.len(), 2);
    let state = || ProxyState { enabled: false, server: String::new(), port: String::new() };
    let snapshot =
        vec![ServiceSnapshot { service: "Wi-Fi".into(), web: state(), secure: state() }];
    assert!(matches!(
        disable_system_proxy(Platform::MacOs, &Some(snapshot)).unwrap(),
        DisablePlan::Restore(list) if list.len() == 2
    ));
}

#[test]
fn trust_is_checked_and_installed() {
    assert_eq!(trust_check_args("/c.pem"), strings(&["verify-cert", "-c", "/c.pem"]));
    assert_eq!(ca_trusted(Platform::MacOs, Some(true)), Some(true));
    assert_eq!(ca_trusted(Platform::MacOs, None), None);
    assert_eq!(ca_trusted(Platform::Other, Some(true)), None);
    assert_eq!(
        install_ca_trust(Platform::MacOs, Ok("/Users/me".into()), "/c.pem").unwrap(),
        strings(&[
            "add-trusted-cert",
            "-r",
            "trustRoot",
            "-k",
            "/Users/me/Library/Keychains/login.keychain-db",
            "/c.pem"
        ])
    );
    assert_eq!(
        install_ca_trust(Platform::MacOs, Err("no home".into()), "/c.pem").unwrap_err(),
        "no home"
    );
    assert_eq!(
        install_ca_trust(Platform::Other, Ok("/h".into()), "/c.pem").unwrap_err(),
        "CA trust installation is only supported on macOS"
    );
    assert!(trust_installed(true, &Vec::new()).is_ok());
    assert_eq!(
        trust_installed(false, &b"\n denied\t".to_vec()).unwrap_err(),
        "security add-trusted-cert failed: denied"
    );
}

#[test]
fn secrets_are_kept_where_the_platform_can() {
    assert!(matches!(
        default_secret_store(Platform::MacOs, "/data"),
        PlatformSecrets::Keychain(_)
    ));
    assert!(matches!(
        default_secret_store(Platform::Other, "/data"),
        PlatformSecrets::Files(store) if store.dir == "/data/secrets"
    ));
    let files = FileSecretStore::new("/d".into());
    assert_eq!(files.read(FileRead::Data(vec![1])), Ok(Some(vec![1])));
    assert_eq!(files.read(FileRead::NotFound), Ok(None));
    assert_eq!(files.read(FileRead::Failed("denied".into())), Err("denied".into()));
    let keychain = KeychainSecretStore;
    assert_eq!(keychain.read(Ok(vec![1])), Ok(Some(vec![1])));
    let missing = KeychainError { code: -25300, message: "not found".into() };
    assert_eq!(keychain.read(Err(missing)), Ok(None));
    let locked = KeychainError { code: -25308, message: "locked".into() };
    assert_eq!(keychain.read(Err(locked)), Err("keychain read failed: locked".into()));
    let locked = KeychainError { code: -25300, message: "locked".into() };
    assert_eq!(keychain.written(Err(locked)), Err("keychain write failed: locked".into()));
    assert_eq!(keychain.written(Ok(())), Ok(()));
}

#[test]
fn paths_are_joined() {
    assert_eq!(join_path("/a", "b"), "/a/b");
    assert_eq!(join_path("/a/", "b"), "/a/b");
    assert_eq!(join_path("", "b"), "b");
}

#[test]
fn settings_have_defaults() {
    let s = ProxySettings::default();
    assert_eq!(s.port, 8888);
    assert_eq!(s.bind_addr, "127.0.0.1");
    assert_eq!(s.body_capture_limit, 10 * 1024 * 1024);
    assert!(s.passthrough_hosts.is_empty());
    assert!(s.extra_root_certs_pem.is_empty());
    assert_eq!(ProxySettings::load(None).port, 8888);
    let mut own = ProxySettings::default();
    own.port = 1;
    own.passthrough_hosts.push("h".into());
    let loaded = ProxySettings::load(Some(own));
    assert_eq!(loaded.port, 1);
    assert_eq!(loaded.clone().passthrough_hosts, vec!["h".to_string()]);
}

fn status(e: ProxyEvent) -> ProxyStatus {
    match e {
        ProxyEvent::ProxyState(s) => s,
        other => panic!("unexpected event: {other:?}"),
    }
}

#[test]
fn the_proxy_is_started_and_stopped() {
    let mut c = Controller::new(ProxySettings::default());
    assert!(!c.status().running);
    match c.start(Some(0)) {
        StartPlan::Launch { settings, bind } => {
            assert_eq!(settings.port, 0);
            assert_eq!(bind, "127.0.0.1:0");
        }
        StartPlan::Running(_) => panic!("not running yet"),
    }
    assert_eq!(c.get_settings().port, 8888);
    let s = status(c.started("127.0.0.1:5000".into(), 5000));
    assert!(s.running);
    assert_eq!(s.addr.as_deref(), Some("127.0.0.1:5000"));
    assert_eq!(s.port, Some(5000));
    match c.start(None) {
        StartPlan::Running(s) => assert_eq!(s.port, Some(5000)),
        StartPlan::Launch { .. } => panic!("running already"),
    }
    let plan = c.stop();
    assert!(plan.stop_listener);
    assert!(!plan.disable_system_proxy);
    let s = status(c.state_event());
    assert!(!s.running);
    assert_eq!(s.addr, None);
    assert_eq!(s.port, None);
    assert!(!c.stop().stop_listener);
    match c.start(None) {
        StartPlan::Launch { bind, .. } => assert_eq!(bind, "127.0.0.1:8888"),
        StartPlan::Running(_) => panic!("stopped"),
    }
    assert_eq!(
        bad_bind_address("x:1", "invalid socket address syntax"),
        "invalid bind address x:1: invalid socket address syntax"
    );
}

#[test]
fn the_system_proxy_needs_a_running_proxy() {
    let mut c = Controller::new(ProxySettings::default());
    assert_eq!(
        c.set_system_proxy(true).unwrap_err(),
        "start the proxy before enabling the system proxy"
    );
    assert_eq!(c.set_system_proxy(false).unwrap(), TogglePlan::Disable);
    c.started("127.0.0.1:5000".into(), 5000);
    assert_eq!(c.set_system_proxy(true).unwrap(), TogglePlan::Enable { port: 5000 });
    assert!(status(c.system_proxy_set(true)).system_proxy_enabled);
    assert!(c.stop().disable_system_proxy);
    assert!(!c.status().system_proxy_enabled);
}

#[test]
fn the_system_proxy_is_turned_off_before_exit() {
    let mut c = Controller::new(ProxySettings::default());
    assert!(!c.prepare_exit());
    c.started("127.0.0.1:5000".into(), 5000);
    c.system_proxy_set(true);
    assert!(c.prepare_exit());
    assert!(!c.status().system_proxy_enabled);
    assert!(!c.prepare_exit());
}

#[test]
fn new_settings_take_effect_on_the_next_start() {
    let mut c = Controller::new(ProxySettings::default());
    c.started("127.0.0.1:8888".into(), 8888);
    let mut s = ProxySettings::default();
    s.port = 9000;
    assert!(c.set_settings(s, Ok(())).is_ok());
    assert_eq!(c.status().port, Some(8888));
    c.stop();
    match c.start(None) {
        StartPlan::Launch { bind, .. } => assert_eq!(bind, "127.0.0.1:9000"),
        StartPlan::Running(_) => panic!("stopped"),
    }
}

#[test]
fn settings_that_are_not_persisted_are_not_taken_over() {
    let mut c = Controller::new(ProxySettings::default());
    let mut s = ProxySettings::default();
    s.port = 9000;
    assert_eq!(c.set_settings(s, Err("disk full".into())).unwrap_err(), "disk full");
    assert_eq!(c.get_settings().port, 8888);
    let mut s = ProxySettings::default();
    s.port = 9001;
    c.set_settings(s, Ok(())).unwrap();
    let later = Controller::new(ProxySettings::load(Some(c.get_settings())));
    assert_eq!(later.get_settings().port, 9001);
}

#[test]
fn secrets_lie_apart_from_the_certificate() {
    let store = match default_secret_store(Platform::Other, "/data") {
        PlatformSecrets::Files(store) => store,
        PlatformSecrets::Keychain(_) => panic!("there is no keychain"),
    };
    assert_eq!(store.file("ca-key.pem"), "/data/secrets/ca-key.pem");
    let read = store.read(FileRead::Data(b"key".to_vec()));
    assert_eq!(read, Ok(Some(b"key".to_vec())));
    assert_eq!(store.read(FileRead::NotFound), Ok(None));
    assert_eq!(store.read(FileRead::Failed("no".into())), Err("no".to_string()));
}

#[test]
fn the_state_of_the_ca_is_told() {
    let s = ca_state(true, Some(false), "/c.pem".into());
    assert!(s.generated);
    assert_eq!(s.cert_path.as_deref(), Some("/c.pem"));
    assert_eq!(s.trusted, Some(false));
    let s = ca_state(false, Some(true), "/c.pem".into());
    assert_eq!(s.cert_path, None);
    assert_eq!(s.trusted, None);
}

fn summary(id: u64) -> TransactionSummary {
    TransactionSummary {
        id,
        started_at_ms: 0,
        kind: String::new(),
        scheme: String::new(),
        method: String::new(),
        host: String::new(),
        path: String::new(),
        query: None,
        status: None,
        duration_ms: None,
        req_size: 0,
        resp_size: 0,
        content_type: None,
        error: None,
        state: TxState::Active,
    }
}

#[test]
fn transaction_events_are_batched_and_states_are_not() {
    let mut pump = EventPump::new();
    assert!(pump.tick().is_none());
    assert!(matches!(pump.receive(ProxyEvent::TransactionStarted(summary(1))), Emit::Nothing));
    let s = ProxyStatus { running: true, addr: None, port: Some(1), system_proxy_enabled: false };
    assert!(matches!(pump.receive(ProxyEvent::ProxyState(s)), Emit::Proxy(s) if s.port == Some(1)));
    let ca = CaState { generated: true, cert_path: None, trusted: None };
    assert!(matches!(pump.receive(ProxyEvent::CaState(ca)), Emit::Ca(ca) if ca.generated));
    assert!(matches!(pump.receive(ProxyEvent::TransactionUpdated(summary(1))), Emit::Nothing));
    assert!(matches!(pump.receive(ProxyEvent::TransactionCompleted(summary(2))), Emit::Nothing));
    let batch = pump.tick().unwrap();
    assert_eq!(batch.len(), 3);
    assert!(matches!(&batch[0], ProxyEvent::TransactionStarted(s) if s.id == 1));
    assert!(matches!(&batch[1], ProxyEvent::TransactionUpdated(s) if s.id == 1));
    assert!(matches!(&batch[2], ProxyEvent::TransactionCompleted(s) if s.id == 2));
    assert!(pump.tick().is_none());
}

#[test]
fn closing_the_pump_hands_out_what_waits() {
    assert!(EventPump::new().close().is_none());
    let mut pump = EventPump::new();
    pump.receive(ProxyEvent::TransactionStarted(summary(1)));
    assert_eq!(pump.tick().unwrap().len(), 1);
    pump.receive(ProxyEvent::TransactionUpdated(summary(1)));
    pump.receive(ProxyEvent::TransactionCompleted(summary(1)));
    let last = pump.close().unwrap();
    assert_eq!(last.len(), 2);
    assert!(matches!(&last[1], ProxyEvent::TransactionCompleted(s) if s.id == 1));
}
