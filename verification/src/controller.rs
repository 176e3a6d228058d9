//! The imperative surface of the core: starting and stopping the proxy, the
//! system proxy toggle, settings and status. Shells map their commands onto
//! it one to one.

use vstd::prelude::*;
use vstd::string::*;

use crate::config;
use crate::config::ProxySettings;
use crate::events::{CaState, ProxyEvent, ProxyStatus};
use crate::text;
use crate::uri;

verus! {

/// A proxy that is listening.
#[derive(Debug)]
pub struct Running {
    /// The address that it is bound to, with the port.
    pub addr: String,
    pub port: u16,
}

/// What the controller knows.
pub struct Controller {
    settings: ProxySettings,
    running: Option<Running>,
    system_proxy_enabled: bool,
}

/// How the proxy is started.
pub enum StartPlan {
    /// It is running already.
    Running(ProxyStatus),
    /// Run it with these settings, bound to this address.
    Launch { settings: ProxySettings, bind: String },
}

/// How the proxy is stopped.
#[derive(Debug, Clone, Copy, PartialEq, Eq, Structural)]
pub struct StopPlan {
    /// Stop the listener and wait for it.
    pub stop_listener: bool,
    /// Turn the system proxy off.
    pub disable_system_proxy: bool,
}

/// How the system proxy is toggled.
#[derive(Debug, Clone, Copy, PartialEq, Eq, Structural)]
pub enum TogglePlan {
    Enable { port: u16 },
    Disable,
}

/// The status of a proxy.
pub open spec fn status_of(running: Option<Running>, system_proxy_enabled: bool) -> ProxyStatus {
    ProxyStatus {
        running: running is Some,
        addr: match running {
            Some(r) => Some(r.addr),
            None => None,
        },
        port: match running {
            Some(r) => Some(r.port),
            None => None,
        },
        system_proxy_enabled,
    }
}

/// The settings with the port of this run.
pub open spec fn with_override(settings: ProxySettings, port: Option<u16>) -> u16 {
    match port {
        Some(p) => p,
        None => settings.port,
    }
}

/// The settings after new ones were given, which were persisted or not.
pub open spec fn settings_after(
    settings: ProxySettings,
    given: ProxySettings,
    saved: bool,
) -> ProxySettings {
    if saved {
        given
    } else {
        settings
    }
}

impl Controller {
    /// The settings.
    pub closed spec fn settings(self) -> ProxySettings {
        self.settings
    }

    /// The running proxy, if it is running.
    pub closed spec fn running(self) -> Option<Running> {
        self.running
    }

    /// Whether the system proxy is on.
    pub closed spec fn system_proxy(self) -> bool {
        self.system_proxy_enabled
    }

    pub fn new(settings: ProxySettings) -> (r: Self)
        ensures
            r.settings() == settings,
            r.running() is None,
            !r.system_proxy(),
    {
        Controller { settings, running: None, system_proxy_enabled: false }
    }

    /// Start the proxy. `port_override` takes precedence over the settings
    /// for this run only.
    pub fn start(&self, port_override: Option<u16>) -> (r: StartPlan)
        ensures
            match r {
                StartPlan::Running(status) => {
                    &&& self.running() is Some
                    &&& status == status_of(self.running(), self.system_proxy())
                },
                StartPlan::Launch { settings, bind } => {
                    &&& self.running() is None
                    &&& config::same_settings(
                        settings,
                        ProxySettings {
                            port: with_override(self.settings(), port_override),
                            ..self.settings()
                        },
                    )
                    &&& bind@ == uri::host_and_port(
                        self.settings().bind_addr@,
                        with_override(self.settings(), port_override),
                    )
                },
            },
    {
        if self.running.is_some() {
            return StartPlan::Running(self.status());
        }
        let mut settings = self.settings.clone();
        if let Some(port) = port_override {
            settings.port = port;
        }
        let bind = uri::with_port(settings.bind_addr.as_str(), settings.port);
        StartPlan::Launch { settings, bind }
    }

    /// The proxy is listening: the event that tells of it.
    pub fn started(&mut self, addr: String, port: u16) -> (r: ProxyEvent)
        ensures
            final(self).settings() == old(self).settings(),
            final(self).running() == Some(Running { addr, port }),
            final(self).system_proxy() == old(self).system_proxy(),
            r == ProxyEvent::ProxyState(
                status_of(final(self).running(), final(self).system_proxy()),
            ),
    {
        self.running = Some(Running { addr, port });
        self.state_event()
    }

    /// Stop the proxy: what has to be done. Whatever comes of it, the proxy
    /// is taken for stopped and the system proxy for off.
    pub fn stop(&mut self) -> (r: StopPlan)
        ensures
            final(self).settings() == old(self).settings(),
            final(self).running() is None,
            !final(self).system_proxy(),
            r.stop_listener == (old(self).running() is Some),
            r.disable_system_proxy == old(self).system_proxy(),
    {
        let plan = StopPlan {
            stop_listener: self.running.is_some(),
            disable_system_proxy: self.system_proxy_enabled,
        };
        self.running = None;
        self.system_proxy_enabled = false;
        plan
    }

    /// The status of the proxy.
    pub fn status(&self) -> (r: ProxyStatus)
        ensures
            r == status_of(self.running(), self.system_proxy()),
    {
        match &self.running {
            Some(r) => ProxyStatus {
                running: true,
                addr: Some(r.addr.clone()),
                port: Some(r.port),
                system_proxy_enabled: self.system_proxy_enabled,
            },
            None => ProxyStatus {
                running: false,
                addr: None,
                port: None,
                system_proxy_enabled: self.system_proxy_enabled,
            },
        }
    }

    /// The event that tells the status of the proxy.
    pub fn state_event(&self) -> (r: ProxyEvent)
        ensures
            r == ProxyEvent::ProxyState(status_of(self.running(), self.system_proxy())),
    {
        ProxyEvent::ProxyState(self.status())
    }

    /// The settings.
    pub fn get_settings(&self) -> (r: ProxySettings)
        ensures
            config::same_settings(self.settings(), r),
    {
        self.settings.clone()
    }

    /// Take over new settings, given what came of persisting them: settings
    /// that are not persisted are not taken over. They take effect on the next
    /// start.
    pub fn set_settings(&mut self, settings: ProxySettings, saved: Result<(), String>) -> (r:
        Result<(), String>)
        ensures
            match saved {
                Ok(_) => r is Ok,
                Err(e) => r == Err::<(), String>(e),
            },
            final(self).settings() == settings_after(old(self).settings(), settings, saved is Ok),
            final(self).running() == old(self).running(),
            final(self).system_proxy() == old(self).system_proxy(),
    {
        match saved {
            Ok(_) => {
                self.settings = settings;
                Ok(())
            },
            Err(e) => Err(e),
        }
    }

    /// Toggle the system-wide proxy: what has to be done. The proxy has to be
    /// running to turn it on.
    pub fn set_system_proxy(&self, enabled: bool) -> (r: Result<TogglePlan, String>)
        ensures
            !enabled ==> r == Ok::<TogglePlan, String>(TogglePlan::Disable),
            enabled ==> match self.running() {
                Some(running) => r == Ok::<TogglePlan, String>(
                    TogglePlan::Enable { port: running.port },
                ),
                None => r is Err && r->Err_0@
                    == "start the proxy before enabling the system proxy"@,
            },
    {
        if !enabled {
            return Ok(TogglePlan::Disable);
        }
        match &self.running {
            Some(r) => Ok(TogglePlan::Enable { port: r.port }),
            None => Err("start the proxy before enabling the system proxy".to_owned()),
        }
    }

    /// The system-wide proxy was toggled: the event that tells of it.
    pub fn system_proxy_set(&mut self, enabled: bool) -> (r: ProxyEvent)
        ensures
            final(self).settings() == old(self).settings(),
            final(self).running() == old(self).running(),
            final(self).system_proxy() == enabled,
            r == ProxyEvent::ProxyState(
                status_of(final(self).running(), final(self).system_proxy()),
            ),
    {
        self.system_proxy_enabled = enabled;
        self.state_event()
    }

    /// Before the process exits: whether the system proxy has to be turned
    /// off, so that the user's network is never left pointed at a dead proxy.
    pub fn prepare_exit(&mut self) -> (r: bool)
        ensures
            r == old(self).system_proxy(),
            !final(self).system_proxy(),
            final(self).settings() == old(self).settings(),
            final(self).running() == old(self).running(),
    {
        let was = self.system_proxy_enabled;
        self.system_proxy_enabled = false;
        was
    }
}

/// The state of the CA. `trusted` is asked for only where there is a
/// certificate.
pub fn ca_state(generated: bool, trusted: Option<bool>, cert_path: String) -> (r: CaState)
    ensures
        r == (CaState {
            generated,
            cert_path: if generated {
                Some(cert_path)
            } else {
                None
            },
            trusted: if generated {
                trusted
            } else {
                None
            },
        }),
{
    if generated {
        CaState { generated, cert_path: Some(cert_path), trusted }
    } else {
        CaState { generated, cert_path: None, trusted: None }
    }
}

/// What is said of an address that the proxy cannot be bound to.
pub fn bad_bind_address(bind: &str, err: &str) -> (r: String)
    ensures
        r@ == "invalid bind address "@ + bind@ + ": "@ + err@,
{
    let mut out = "invalid bind address ".to_owned();
    out.append(bind);
    out.append(": ");
    out.append(err);
    out
}

/// A status tells an address and a port exactly while the proxy is running.
pub proof fn law_status_is_coherent(running: Option<Running>, system_proxy_enabled: bool)
    ensures
        ({
            let s = status_of(running, system_proxy_enabled);
            &&& s.running <==> s.addr is Some
            &&& s.running <==> s.port is Some
        }),
{
}

/// What is persisted after new settings were given, which were persisted or
/// not.
pub open spec fn persisted_after(
    persisted: Option<ProxySettings>,
    given: ProxySettings,
    saved: bool,
) -> Option<ProxySettings> {
    if saved {
        Some(given)
    } else {
        persisted
    }
}

/// The settings are those that loading what is persisted gives.
pub open spec fn in_step(settings: ProxySettings, persisted: Option<ProxySettings>) -> bool {
    match persisted {
        Some(p) => settings == p,
        None => config::is_default_settings(settings),
    }
}

/// Settings that were loaded are those that are persisted, and stay so however
/// new ones are given and whether or not persisting them succeeds: a later run
/// has the settings that this one has.
pub proof fn law_settings_are_those_persisted(
    settings: ProxySettings,
    persisted: Option<ProxySettings>,
    given: ProxySettings,
    saved: bool,
    later: ProxySettings,
)
    requires
        in_step(settings, persisted),
        in_step(later, persisted_after(persisted, given, saved)),
    ensures
        in_step(
            settings_after(settings, given, saved),
            persisted_after(persisted, given, saved),
        ),
        saved ==> later == given,
        !saved ==> config::same_settings(later, settings),
{
    if !saved && persisted is None {
        assert(text::texts(later.passthrough_hosts@) =~= text::texts(settings.passthrough_hosts@));
        assert(text::texts(later.extra_root_certs_pem@) =~= text::texts(
            settings.extra_root_certs_pem@,
        ));
    }
}

/// What is done with a controller.
pub enum Operation {
    Started(Running),
    Stop,
    SystemProxySet(bool),
    SetSettings,
    PrepareExit,
}

/// Whether the controller allows an operation in a state: the proxy is
/// started when it is not running, and the system proxy is turned on when it
/// is.
pub open spec fn allowed(running: Option<Running>, op: Operation) -> bool {
    match op {
        Operation::Started(_) => running is None,
        Operation::SystemProxySet(enabled) => enabled ==> running is Some,
        _ => true,
    }
}

/// Whether the proxy is running after an operation.
pub open spec fn running_after(running: Option<Running>, op: Operation) -> Option<Running> {
    match op {
        Operation::Started(r) => Some(r),
        Operation::Stop => None,
        _ => running,
    }
}

/// Whether the system proxy is on after an operation.
pub open spec fn system_proxy_after(system_proxy: bool, op: Operation) -> bool {
    match op {
        Operation::Stop | Operation::PrepareExit => false,
        Operation::SystemProxySet(enabled) => enabled,
        _ => system_proxy,
    }
}

/// The state after some operations.
pub open spec fn state_after(ops: Seq<Operation>) -> (Option<Running>, bool)
    decreases ops.len(),
{
    if ops.len() == 0 {
        (None, false)
    } else {
        let (running, system_proxy) = state_after(ops.drop_last());
        (running_after(running, ops.last()), system_proxy_after(system_proxy, ops.last()))
    }
}

/// Every operation was allowed when it was done.
pub open spec fn all_allowed(ops: Seq<Operation>) -> bool {
    forall|i: int|
        0 <= i < ops.len() ==> allowed(state_after(ops.take(i)).0, #[trigger] ops[i])
}

/// Whatever is done with a controller, the system proxy is only on while the
/// proxy is running.
pub proof fn law_system_proxy_only_while_running(ops: Seq<Operation>)
    requires
        all_allowed(ops),
    ensures
        state_after(ops).1 ==> state_after(ops).0 is Some,
    decreases ops.len(),
{
    if ops.len() > 0 {
        let fewer = ops.drop_last();
        assert forall|i: int| 0 <= i < fewer.len() implies allowed(
            state_after(fewer.take(i)).0,
            #[trigger] fewer[i],
        ) by {
            assert(fewer[i] == ops[i]);
            assert(fewer.take(i) =~= ops.take(i));
        }
        law_system_proxy_only_while_running(fewer);
        let n = ops.len() - 1;
        assert(ops.take(n) =~= fewer);
        assert(allowed(state_after(ops.take(n)).0, ops[n]));
    }
}

/// A run listens on the address of the settings and on the port that was asked
/// for, or on that of the settings where none was; in all else it has the
/// settings.
pub proof fn law_launch_takes_the_asked_port(
    controller: &Controller,
    port: Option<u16>,
    r: StartPlan,
)
    requires
        call_ensures(Controller::start, (controller, port), r),
    ensures
        r is Running <==> controller.running() is Some,
        r matches StartPlan::Launch { settings, bind } ==> {
            &&& port is Some ==> settings.port == port->0
            &&& port is None ==> settings.port == controller.settings().port
            &&& bind@ == controller.settings().bind_addr@ + seq![':'] + text::decimal_of(
                settings.port as nat,
            )
            &&& settings.bind_addr@ == controller.settings().bind_addr@
            &&& settings.body_capture_limit == controller.settings().body_capture_limit
            &&& text::texts(settings.passthrough_hosts@) == text::texts(
                controller.settings().passthrough_hosts@,
            )
            &&& text::texts(settings.extra_root_certs_pem@) == text::texts(
                controller.settings().extra_root_certs_pem@,
            )
        },
{
    reveal_strlit(":");
    assert(":"@ =~= seq![':']);
}

/// A status tells the running proxy: its address and its port, and whether the
/// system proxy is on.
pub proof fn law_status_tells_the_proxy(controller: &Controller, r: ProxyStatus)
    requires
        call_ensures(Controller::status, (controller,), r),
    ensures
        r.running <==> controller.running() is Some,
        r.system_proxy_enabled == controller.system_proxy(),
        controller.running() matches Some(running) ==> r.addr == Some(running.addr) && r.port
            == Some(running.port),
        controller.running() is None ==> r.addr is None && r.port is None,
{
}

/// The system proxy is turned on only for a running proxy, and points at its
/// port; it can always be turned off.
pub proof fn law_system_proxy_points_at_the_running_port(
    controller: &Controller,
    enabled: bool,
    r: Result<TogglePlan, String>,
)
    requires
        call_ensures(Controller::set_system_proxy, (controller, enabled), r),
    ensures
        r is Err <==> enabled && controller.running() is None,
        r is Ok && enabled ==> r->Ok_0 == (TogglePlan::Enable {
            port: controller.running()->0.port,
        }),
        !enabled ==> r == Ok::<TogglePlan, String>(TogglePlan::Disable),
{
}

/// The state of the CA tells a path and a trust only of a certificate that
/// there is.
pub proof fn law_ca_state_tells_of_what_there_is(
    generated: bool,
    trusted: Option<bool>,
    cert_path: String,
    r: CaState,
)
    requires
        call_ensures(ca_state, (generated, trusted, cert_path), r),
    ensures
        r.generated == generated,
        r.cert_path is Some <==> generated,
        generated ==> r.cert_path == Some(cert_path) && r.trusted == trusted,
        !generated ==> r.trusted is None,
{
}

/// Starting and stopping are noted as they happen, and the settings stay: a
/// started proxy is the running one, and a stopped one leaves neither a running
/// proxy nor a system proxy behind. What has to be undone is what was there.
pub proof fn law_start_and_stop_are_noted(addr: String, port: u16)
    ensures
        forall|c: &mut Controller, r: ProxyEvent|
            #[trigger] call_ensures(Controller::started, (c, addr, port), r) ==> {
                &&& final(c).running() == Some(Running { addr, port })
                &&& final(c).settings() == c.settings()
                &&& final(c).system_proxy() == c.system_proxy()
                &&& r is ProxyState
                &&& r->ProxyState_0.running
                &&& r->ProxyState_0.addr == Some(addr)
                &&& r->ProxyState_0.port == Some(port)
                &&& r->ProxyState_0.system_proxy_enabled == c.system_proxy()
            },
        forall|c: &mut Controller, r: StopPlan|
            #[trigger] call_ensures(Controller::stop, (c,), r) ==> {
                &&& final(c).running() is None
                &&& !final(c).system_proxy()
                &&& final(c).settings() == c.settings()
                &&& r.stop_listener <==> c.running() is Some
                &&& r.disable_system_proxy <==> c.system_proxy()
            },
        forall|c: &mut Controller, r: bool|
            #[trigger] call_ensures(Controller::prepare_exit, (c,), r) ==> {
                &&& r <==> c.system_proxy()
                &&& !final(c).system_proxy()
                &&& final(c).running() == c.running()
                &&& final(c).settings() == c.settings()
            },
{
}

/// New settings are taken over exactly where they were persisted, and toggling
/// the system proxy is noted; neither touches the running proxy.
pub proof fn law_settings_and_toggle_are_noted(
    settings: ProxySettings,
    saved: Result<(), String>,
    enabled: bool,
)
    ensures
        forall|c: &mut Controller, r: Result<(), String>|
            #[trigger] call_ensures(Controller::set_settings, (c, settings, saved), r) ==> {
                &&& saved is Ok ==> r is Ok && final(c).settings() == settings
                &&& saved is Err ==> r is Err && r->Err_0 == saved->Err_0 && final(c).settings()
                    == c.settings()
                &&& final(c).running() == c.running()
                &&& final(c).system_proxy() == c.system_proxy()
            },
        forall|c: &mut Controller, r: ProxyEvent|
            #[trigger] call_ensures(Controller::system_proxy_set, (c, enabled), r) ==> {
                &&& final(c).system_proxy() == enabled
                &&& final(c).running() == c.running()
                &&& final(c).settings() == c.settings()
                &&& r is ProxyState
                &&& r->ProxyState_0.system_proxy_enabled == enabled
                &&& r->ProxyState_0.running <==> c.running() is Some
            },
{
}

/// What is said of a bad address holds the address and the cause.
pub proof fn law_bad_address_is_told(bind: &str, err: &str, r: String)
    requires
        call_ensures(bad_bind_address, (bind, err), r),
    ensures
        text::contains_text(r@, bind@),
        text::ends(r@, err@),
{
    reveal_strlit("invalid bind address ");
    let n = "invalid bind address "@.len() as int;
    assert(r@.subrange(n, n + bind@.len()) =~= bind@);
    assert(text::occurs_at(r@, bind@, n));
    assert(r@.skip(r@.len() - err@.len()) =~= err@);
}

} // verus!
