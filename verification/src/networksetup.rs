//! The system proxy, as macOS's `networksetup` shows and sets it: what its
//! output says, which commands turn the proxy on and restore what was there
//! before, and that restoring does so.

use vstd::prelude::*;
use vstd::string::*;

use crate::text;

verus! {

/// The file under the data directory that holds the settings from before the
/// system proxy was turned on.
pub const SNAPSHOT_FILE: &'static str = "system-proxy-snapshot.json";

/// The file under the data directory that tells that the system proxy is
/// turned on, so that a crashed run can be repaired on next launch.
pub const GUARD_FILE: &'static str = "system-proxy.guard";

pub const GUARD_TEXT: &'static str = "httpmate system proxy is active\n";

/// The proxy of one network service, for one kind of traffic.
#[derive(Debug)]
pub struct ProxyState {
    pub enabled: bool,
    pub server: String,
    pub port: String,
}

/// The proxies of one network service.
#[derive(Debug)]
pub struct ServiceSnapshot {
    pub service: String,
    pub web: ProxyState,
    pub secure: ProxyState,
}

/// The proxy of one network service, as texts.
pub struct Setting {
    pub enabled: bool,
    pub server: Seq<char>,
    pub port: Seq<char>,
}

impl View for ProxyState {
    type V = Setting;

    open spec fn view(&self) -> Setting {
        Setting { enabled: self.enabled, server: self.server@, port: self.port@ }
    }
}

/// The proxies of one network service, as texts.
pub struct Recorded {
    pub service: Seq<char>,
    pub web: Setting,
    pub secure: Setting,
}

impl View for ServiceSnapshot {
    type V = Recorded;

    open spec fn view(&self) -> Recorded {
        Recorded { service: self.service@, web: self.web@, secure: self.secure@ }
    }
}

/// The views of a snapshot.
pub open spec fn recorded(snapshot: Seq<ServiceSnapshot>) -> Seq<Recorded> {
    snapshot.map_values(|s: ServiceSnapshot| s@)
}

/// Whether the guard is among the files of the data directory.
pub fn guard_exists(files: &Vec<String>) -> (r: bool)
    ensures
        r == text::texts(files@).contains(GUARD_FILE@),
{
    let ghost names = text::texts(files@);
    let mut i: usize = 0;
    while i < files.len()
        invariant
            i <= files@.len(),
            names == text::texts(files@),
            forall|j: int| 0 <= j < i ==> names[j] != GUARD_FILE@,
        decreases files@.len() - i,
    {
        proof {
            assert(names[i as int] == files@[i as int]@);
        }
        if text::same_text(files[i].as_str(), GUARD_FILE) {
            return true;
        }
        i += 1;
    }
    false
}

/// Whether a line names an active service: it is not blank, and has no `*`
/// before it, which marks a disabled service.
pub open spec fn is_active(line: Seq<char>) -> bool {
    let name = text::trimmed(line);
    name.len() > 0 && name[0] != '*'
}

/// The active services in lines of output.
pub open spec fn active_services(lines: Seq<Seq<char>>) -> Seq<Seq<char>>
    decreases lines.len(),
{
    if lines.len() == 0 {
        Seq::empty()
    } else {
        let before = active_services(lines.drop_last());
        if is_active(lines.last()) {
            before.push(text::trimmed(lines.last()))
        } else {
            before
        }
    }
}

/// The active services in the output of `-listallnetworkservices`. The first
/// line is an explanation.
pub open spec fn services_in(output: Seq<char>) -> Seq<Seq<char>> {
    let lines = text::lines_of(output);
    if lines.len() == 0 {
        Seq::empty()
    } else {
        active_services(lines.skip(1))
    }
}

/// The active services in the output of `-listallnetworkservices`.
pub fn list_services(output: &str) -> (r: Vec<String>)
    ensures
        text::texts(r@) == services_in(output@),
{
    let lines = text::lines(output);
    let ghost all = text::lines_of(output@);
    let mut out: Vec<String> = Vec::new();
    if lines.len() == 0 {
        proof {
            assert(text::texts(out@) =~= services_in(output@));
        }
        return out;
    }
    let ghost rest = all.skip(1);
    let mut i: usize = 1;
    proof {
        assert(rest.take(0) =~= Seq::<Seq<char>>::empty());
        assert(text::texts(out@) =~= active_services(rest.take(0)));
    }
    while i < lines.len()
        invariant
            1 <= i <= lines@.len(),
            all == text::texts(lines@),
            rest == all.skip(1),
            text::texts(out@) == active_services(rest.take(i - 1)),
        decreases lines@.len() - i,
    {
        let ghost grown = rest.take(i as int);
        proof {
            assert(grown.drop_last() =~= rest.take(i - 1));
            assert(grown.last() == lines@[i as int]@);
        }
        let name = text::trim(lines[i].as_str());
        let ghost before = text::texts(out@);
        proof {
            reveal_strlit("*");
            if name@.len() > 0 {
                assert(name@.take(1)[0] == name@[0]);
                if name@[0] == '*' {
                    assert(name@.take(1) =~= "*"@);
                }
            }
        }
        if !name.as_str().is_empty() && !text::starts_with(name.as_str(), "*") {
            out.push(name);
            proof {
                assert(text::texts(out@) =~= before.push(name@));
            }
        }
        i += 1;
    }
    proof {
        assert(rest.take(i - 1) =~= rest);
    }
    out
}

/// A proxy after one more line of output: `Enabled`, `Server` and `Port` are
/// taken, everything else is passed over.
pub open spec fn with_line(state: Setting, line: Seq<char>) -> Setting {
    match text::cut(line, ":"@) {
        None => state,
        Some((key, value)) => {
            let key = text::trimmed(key);
            let value = text::trimmed(value);
            if key == "Enabled"@ {
                Setting { enabled: text::lower(value) == "yes"@, ..state }
            } else if key == "Server"@ {
                Setting { server: value, ..state }
            } else if key == "Port"@ {
                Setting { port: value, ..state }
            } else {
                state
            }
        },
    }
}

/// A proxy that is off, and that nothing is known of.
pub open spec fn blank_setting() -> Setting {
    Setting { enabled: false, server: ""@, port: ""@ }
}

/// The proxy that lines of output tell of.
pub open spec fn setting_in(lines: Seq<Seq<char>>) -> Setting
    decreases lines.len(),
{
    if lines.len() == 0 {
        blank_setting()
    } else {
        with_line(setting_in(lines.drop_last()), lines.last())
    }
}

/// Take one more line of output.
fn take_line(state: ProxyState, line: &str) -> (r: ProxyState)
    ensures
        r@ == with_line(state@, line@),
{
    match text::split_once(line, ":") {
        None => state,
        Some((key, value)) => {
            let key = text::trim(key.as_str());
            let value = text::trim(value.as_str());
            if text::same_text(key.as_str(), "Enabled") {
                let lower = text::to_lower(value.as_str());
                ProxyState { enabled: text::same_text(lower.as_str(), "yes"), ..state }
            } else if text::same_text(key.as_str(), "Server") {
                ProxyState { server: value, ..state }
            } else if text::same_text(key.as_str(), "Port") {
                ProxyState { port: value, ..state }
            } else {
                state
            }
        },
    }
}

/// The proxy in the output of `-getwebproxy` or `-getsecurewebproxy`.
pub fn get_state(output: &str) -> (r: ProxyState)
    ensures
        r@ == setting_in(text::lines_of(output@)),
{
    let lines = text::lines(output);
    let ghost all = text::lines_of(output@);
    let mut state = ProxyState { enabled: false, server: "".to_owned(), port: "".to_owned() };
    let mut i: usize = 0;
    proof {
        assert(all.take(0) =~= Seq::<Seq<char>>::empty());
    }
    while i < lines.len()
        invariant
            i <= lines@.len(),
            all == text::texts(lines@),
            state@ == setting_in(all.take(i as int)),
        decreases lines@.len() - i,
    {
        let ghost grown = all.take(i + 1);
        proof {
            assert(grown.drop_last() =~= all.take(i as int));
            assert(grown.last() == lines@[i as int]@);
        }
        state = take_line(state, lines[i].as_str());
        i += 1;
    }
    proof {
        assert(all.take(i as int) =~= all);
    }
    state
}

/// A command to `networksetup`.
#[derive(Debug)]
pub enum NetCommand {
    /// List the network services.
    ListServices,
    /// Tell the proxy of a service.
    Get { service: String, secure: bool },
    /// Set the proxy of a service, and turn it on.
    Point { service: String, secure: bool, server: String, port: String },
    /// Turn the proxy of a service on or off.
    Switch { service: String, secure: bool, on: bool },
}

/// A command to `networksetup`, as texts.
pub enum Command {
    ListServices,
    Get { service: Seq<char>, secure: bool },
    Point { service: Seq<char>, secure: bool, server: Seq<char>, port: Seq<char> },
    Switch { service: Seq<char>, secure: bool, on: bool },
}

impl View for NetCommand {
    type V = Command;

    open spec fn view(&self) -> Command {
        match self {
            NetCommand::ListServices => Command::ListServices,
            NetCommand::Get { service, secure } => Command::Get {
                service: service@,
                secure: *secure,
            },
            NetCommand::Point { service, secure, server, port } => Command::Point {
                service: service@,
                secure: *secure,
                server: server@,
                port: port@,
            },
            NetCommand::Switch { service, secure, on } => Command::Switch {
                service: service@,
                secure: *secure,
                on: *on,
            },
        }
    }
}

/// The views of a list of commands.
pub open spec fn commands(list: Seq<NetCommand>) -> Seq<Command> {
    list.map_values(|c: NetCommand| c@)
}

/// The arguments of a command.
pub open spec fn arguments(c: Command) -> Seq<Seq<char>> {
    match c {
        Command::ListServices => seq!["-listallnetworkservices"@],
        Command::Get { service, secure } => seq![
            if secure {
                "-getsecurewebproxy"@
            } else {
                "-getwebproxy"@
            },
            service,
        ],
        Command::Point { service, secure, server, port } => seq![
            if secure {
                "-setsecurewebproxy"@
            } else {
                "-setwebproxy"@
            },
            service,
            server,
            port,
        ],
        Command::Switch { service, secure, on } => seq![
            if secure {
                "-setsecurewebproxystate"@
            } else {
                "-setwebproxystate"@
            },
            service,
            if on {
                "on"@
            } else {
                "off"@
            },
        ],
    }
}

impl NetCommand {
    /// The arguments of the command.
    pub fn args(&self) -> (r: Vec<String>)
        ensures
            text::texts(r@) == arguments(self@),
    {
        let mut out: Vec<String> = Vec::new();
        match self {
            NetCommand::ListServices => {
                out.push("-listallnetworkservices".to_owned());
            },
            NetCommand::Get { service, secure } => {
                out.push(
                    if *secure {
                        "-getsecurewebproxy".to_owned()
                    } else {
                        "-getwebproxy".to_owned()
                    },
                );
                out.push(service.clone());
            },
            NetCommand::Point { service, secure, server, port } => {
                out.push(
                    if *secure {
                        "-setsecurewebproxy".to_owned()
                    } else {
                        "-setwebproxy".to_owned()
                    },
                );
                out.push(service.clone());
                out.push(server.clone());
                out.push(port.clone());
            },
            NetCommand::Switch { service, secure, on } => {
                out.push(
                    if *secure {
                        "-setsecurewebproxystate".to_owned()
                    } else {
                        "-setwebproxystate".to_owned()
                    },
                );
                out.push(service.clone());
                out.push(
                    if *on {
                        "on".to_owned()
                    } else {
                        "off".to_owned()
                    },
                );
            },
        }
        proof {
            assert(text::texts(out@) =~= arguments(self@));
        }
        out
    }
}

/// Texts with a space between each two.
pub open spec fn spaced(parts: Seq<Seq<char>>) -> Seq<char>
    decreases parts.len(),
{
    if parts.len() == 0 {
        Seq::empty()
    } else if parts.len() == 1 {
        parts[0]
    } else {
        spaced(parts.drop_last()) + " "@ + parts.last()
    }
}

/// Texts with a space between each two.
fn join_spaced(parts: &Vec<String>) -> (r: String)
    ensures
        r@ == spaced(text::texts(parts@)),
{
    let ghost all = text::texts(parts@);
    let mut out = String::new();
    let mut i: usize = 0;
    proof {
        assert(all.take(0) =~= Seq::<Seq<char>>::empty());
        assert(out@ =~= spaced(all.take(0)));
    }
    while i < parts.len()
        invariant
            i <= parts@.len(),
            all == text::texts(parts@),
            out@ == spaced(all.take(i as int)),
        decreases parts@.len() - i,
    {
        let ghost grown = all.take(i + 1);
        proof {
            assert(grown.drop_last() =~= all.take(i as int));
            assert(grown.last() == parts@[i as int]@);
        }
        if i > 0 {
            out.append(" ");
        }
        out.append(parts[i].as_str());
        proof {
            if i == 0 {
                assert(out@ =~= parts@[0]@);
            }
        }
        i += 1;
    }
    proof {
        assert(all.take(i as int) =~= all);
    }
    out
}

/// What came of running a command: its output, or how it failed.
pub fn run(
    command: &NetCommand,
    success: bool,
    stdout: &Vec<u8>,
    stderr: &Vec<u8>,
) -> (r: Result<String, String>)
    ensures
        match r {
            Ok(output) => success && output@ == text::lossy_text(stdout@),
            Err(e) => !success && e@ == "networksetup "@ + spaced(arguments(command@))
                + " failed: "@ + text::trimmed(text::lossy_text(stderr@)),
        },
{
    if success {
        return Ok(text::lossy(stdout.as_slice()));
    }
    let args = command.args();
    let joined = join_spaced(&args);
    let said = text::lossy(stderr.as_slice());
    let said = text::trim(said.as_str());
    let mut message = "networksetup ".to_owned();
    message.append(joined.as_str());
    message.append(" failed: ");
    message.append(said.as_str());
    Err(message)
}

/// The commands that set both proxies of each service to a local port.
pub open spec fn set_commands(services: Seq<Seq<char>>, port: u16) -> Seq<Command>
    decreases services.len(),
{
    if services.len() == 0 {
        Seq::empty()
    } else {
        let service = services.last();
        let server = "127.0.0.1"@;
        let port_text = text::decimal_of(port as nat);
        set_commands(services.drop_last(), port) + seq![
            Command::Point { service, secure: false, server, port: port_text },
            Command::Point { service, secure: true, server, port: port_text },
        ]
    }
}

/// The commands that tell both proxies of each service.
pub open spec fn get_commands(services: Seq<Seq<char>>) -> Seq<Command>
    decreases services.len(),
{
    if services.len() == 0 {
        Seq::empty()
    } else {
        let service = services.last();
        get_commands(services.drop_last()) + seq![
            Command::Get { service, secure: false },
            Command::Get { service, secure: true },
        ]
    }
}

/// How the system proxy is turned on.
#[derive(Debug)]
pub struct EnablePlan {
    /// First, unless a snapshot was taken already, these are asked for the
    /// snapshot.
    pub ask: Vec<NetCommand>,
    /// Then these are run.
    pub set: Vec<NetCommand>,
}

/// How the system proxy is turned on for these services. A snapshot is taken
/// only once: turning it on again (after a change of port, say) must not
/// overwrite the user's own settings with ours.
pub fn enable(services: &Vec<String>, guard: bool, port: u16) -> (r: Result<EnablePlan, String>)
    ensures
        match r {
            Ok(plan) => {
                &&& services@.len() > 0
                &&& commands(plan.set@) == set_commands(text::texts(services@), port)
                &&& commands(plan.ask@) == (if guard {
                    Seq::<Command>::empty()
                } else {
                    get_commands(text::texts(services@))
                })
            },
            Err(e) => services@.len() == 0 && e@ == "no active network services found"@,
        },
{
    if services.len() == 0 {
        return Err("no active network services found".to_owned());
    }
    let ghost all = text::texts(services@);
    let mut ask: Vec<NetCommand> = Vec::new();
    let mut set: Vec<NetCommand> = Vec::new();
    let mut i: usize = 0;
    proof {
        assert(all.take(0) =~= Seq::<Seq<char>>::empty());
        assert(commands(ask@) =~= get_commands(all.take(0)));
        assert(commands(ask@) =~= Seq::<Command>::empty());
        assert(commands(set@) =~= set_commands(all.take(0), port));
    }
    while i < services.len()
        invariant
            i <= services@.len(),
            all == text::texts(services@),
            commands(ask@) == (if guard {
                Seq::<Command>::empty()
            } else {
                get_commands(all.take(i as int))
            }),
            commands(set@) == set_commands(all.take(i as int), port),
        decreases services@.len() - i,
    {
        let ghost grown = all.take(i + 1);
        let ghost asked = commands(ask@);
        let ghost sets = commands(set@);
        proof {
            assert(grown.drop_last() =~= all.take(i as int));
            assert(grown.last() == services@[i as int]@);
        }
        if !guard {
            ask.push(NetCommand::Get { service: services[i].clone(), secure: false });
            ask.push(NetCommand::Get { service: services[i].clone(), secure: true });
            proof {
                let service = services@[i as int]@;
                assert(commands(ask@) =~= asked + seq![
                    Command::Get { service, secure: false },
                    Command::Get { service, secure: true },
                ]);
            }
        }
        let port_text = text::decimal(port as u64);
        set.push(
            NetCommand::Point {
                service: services[i].clone(),
                secure: false,
                server: "127.0.0.1".to_owned(),
                port: port_text.clone(),
            },
        );
        set.push(
            NetCommand::Point {
                service: services[i].clone(),
                secure: true,
                server: "127.0.0.1".to_owned(),
                port: port_text,
            },
        );
        proof {
            let service = services@[i as int]@;
            let server = "127.0.0.1"@;
            assert(commands(set@) =~= sets + seq![
                Command::Point { service, secure: false, server, port: port_text@ },
                Command::Point { service, secure: true, server, port: port_text@ },
            ]);
        }
        i += 1;
    }
    proof {
        assert(all.take(i as int) =~= all);
    }
    Ok(EnablePlan { ask, set })
}

/// The commands that restore one proxy of a service. To set a proxy is to turn
/// it on, so one that was off is switched off after that. A proxy without a
/// server cannot be set, only switched off.
pub open spec fn restore_commands(service: Seq<char>, was: Setting, secure: bool) -> Seq<Command> {
    if was.server.len() > 0 {
        seq![
            Command::Point { service, secure, server: was.server, port: was.port },
            Command::Switch { service, secure, on: was.enabled },
        ]
    } else {
        seq![Command::Switch { service, secure, on: false }]
    }
}

/// Add the commands that restore one proxy of a service.
fn restore_one(list: &mut Vec<NetCommand>, service: &str, was: &ProxyState, secure: bool)
    ensures
        commands(final(list)@) == commands(old(list)@) + restore_commands(service@, was@, secure),
{
    let ghost before = commands(list@);
    if !was.server.as_str().is_empty() {
        list.push(
            NetCommand::Point {
                service: service.to_owned(),
                secure,
                server: was.server.clone(),
                port: was.port.clone(),
            },
        );
        list.push(
            NetCommand::Switch { service: service.to_owned(), secure, on: was.enabled },
        );
    } else {
        list.push(NetCommand::Switch { service: service.to_owned(), secure, on: false });
    }
    proof {
        assert(commands(list@) =~= before + restore_commands(service@, was@, secure));
    }
}

/// The commands that restore a snapshot.
pub open spec fn snapshot_commands(snapshot: Seq<Recorded>) -> Seq<Command>
    decreases snapshot.len(),
{
    if snapshot.len() == 0 {
        Seq::empty()
    } else {
        let last = snapshot.last();
        snapshot_commands(snapshot.drop_last()) + restore_commands(last.service, last.web, false)
            + restore_commands(last.service, last.secure, true)
    }
}

/// How the system proxy is turned off.
#[derive(Debug)]
pub enum DisablePlan {
    /// Restore what was there before, by these commands.
    Restore(Vec<NetCommand>),
    /// Nothing is known of before: list the services and switch the proxies
    /// of all of them off.
    SwitchOff,
}

/// How the system proxy is turned off, given the snapshot, if there is one
/// that can be read.
pub fn disable(snapshot: &Option<Vec<ServiceSnapshot>>) -> (r: DisablePlan)
    ensures
        match r {
            DisablePlan::Restore(list) => {
                &&& snapshot is Some
                &&& snapshot->0@.len() > 0
                &&& commands(list@) == snapshot_commands(recorded(snapshot->0@))
            },
            DisablePlan::SwitchOff => snapshot is None || snapshot->0@.len() == 0,
        },
{
    match snapshot {
        None => DisablePlan::SwitchOff,
        Some(entries) => {
            if entries.len() == 0 {
                return DisablePlan::SwitchOff;
            }
            let ghost all = recorded(entries@);
            let mut list: Vec<NetCommand> = Vec::new();
            let mut i: usize = 0;
            proof {
                assert(all.take(0) =~= Seq::<Recorded>::empty());
                assert(commands(list@) =~= snapshot_commands(all.take(0)));
            }
            while i < entries.len()
                invariant
                    i <= entries@.len(),
                    all == recorded(entries@),
                    commands(list@) == snapshot_commands(all.take(i as int)),
                decreases entries@.len() - i,
            {
                let ghost grown = all.take(i + 1);
                proof {
                    assert(grown.drop_last() =~= all.take(i as int));
                    assert(grown.last() == entries@[i as int]@);
                }
                restore_one(&mut list, entries[i].service.as_str(), &entries[i].web, false);
                restore_one(&mut list, entries[i].service.as_str(), &entries[i].secure, true);
                i += 1;
            }
            proof {
                assert(all.take(i as int) =~= all);
            }
            DisablePlan::Restore(list)
        },
    }
}

/// The commands that switch off both proxies of each service.
pub open spec fn off_commands(services: Seq<Seq<char>>) -> Seq<Command>
    decreases services.len(),
{
    if services.len() == 0 {
        Seq::empty()
    } else {
        let service = services.last();
        off_commands(services.drop_last()) + seq![
            Command::Switch { service, secure: false, on: false },
            Command::Switch { service, secure: true, on: false },
        ]
    }
}

/// The commands that switch off both proxies of each service.
pub fn switch_off(services: &Vec<String>) -> (r: Vec<NetCommand>)
    ensures
        commands(r@) == off_commands(text::texts(services@)),
{
    let ghost all = text::texts(services@);
    let mut list: Vec<NetCommand> = Vec::new();
    let mut i: usize = 0;
    proof {
        assert(all.take(0) =~= Seq::<Seq<char>>::empty());
        assert(commands(list@) =~= off_commands(all.take(0)));
    }
    while i < services.len()
        invariant
            i <= services@.len(),
            all == text::texts(services@),
            commands(list@) == off_commands(all.take(i as int)),
        decreases services@.len() - i,
    {
        let ghost grown = all.take(i + 1);
        let ghost before = commands(list@);
        proof {
            assert(grown.drop_last() =~= all.take(i as int));
            assert(grown.last() == services@[i as int]@);
        }
        list.push(NetCommand::Switch { service: services[i].clone(), secure: false, on: false });
        list.push(NetCommand::Switch { service: services[i].clone(), secure: true, on: false });
        proof {
            let service = services@[i as int]@;
            assert(commands(list@) =~= before + seq![
                Command::Switch { service, secure: false, on: false },
                Command::Switch { service, secure: true, on: false },
            ]);
        }
        i += 1;
    }
    proof {
        assert(all.take(i as int) =~= all);
    }
    list
}

/// The snapshot that the outputs of the commands of a plan make up.
pub open spec fn snapshot_of(
    services: Seq<Seq<char>>,
    outputs: Seq<Seq<char>>,
) -> Seq<Recorded> {
    Seq::new(
        services.len(),
        |i: int|
            Recorded {
                service: services[i],
                web: setting_in(text::lines_of(outputs[2 * i])),
                secure: setting_in(text::lines_of(outputs[2 * i + 1])),
            },
    )
}

/// The snapshot that the outputs of the commands of a plan make up, two for
/// each service.
pub fn take_snapshot(services: &Vec<String>, outputs: &Vec<String>) -> (r: Vec<ServiceSnapshot>)
    requires
        outputs@.len() == 2 * services@.len(),
    ensures
        recorded(r@) == snapshot_of(text::texts(services@), text::texts(outputs@)),
{
    let ghost want = snapshot_of(text::texts(services@), text::texts(outputs@));
    let mut out: Vec<ServiceSnapshot> = Vec::new();
    let mut i: usize = 0;
    while i < services.len()
        invariant
            i <= services@.len(),
            outputs@.len() == 2 * services@.len(),
            want == snapshot_of(text::texts(services@), text::texts(outputs@)),
            recorded(out@) == want.take(i as int),
        decreases services@.len() - i,
    {
        let n: usize = outputs.len();
        assert(2 * i + 1 < n);
        let web = get_state(outputs[2 * i].as_str());
        let secure = get_state(outputs[2 * i + 1].as_str());
        let ghost before = recorded(out@);
        out.push(ServiceSnapshot { service: services[i].clone(), web, secure });
        proof {
            assert(recorded(out@) =~= before.push(want[i as int]));
            assert(before.push(want[i as int]) =~= want.take(i + 1));
        }
        i += 1;
    }
    proof {
        assert(want.take(i as int) =~= want);
    }
    out
}

/// One step of turning the system proxy on or off.
#[derive(Debug)]
pub enum NetStep {
    /// Write the snapshot to its file.
    SaveSnapshot(Vec<ServiceSnapshot>),
    /// Write the guard.
    SaveGuard,
    /// Run a command.
    Run(NetCommand),
    /// Remove the snapshot's file.
    RemoveSnapshot,
    /// Remove the guard.
    RemoveGuard,
}

/// One step of turning the system proxy on or off, as texts.
pub enum Step {
    SaveSnapshot(Seq<Recorded>),
    SaveGuard,
    Run(Command),
    RemoveSnapshot,
    RemoveGuard,
}

impl View for NetStep {
    type V = Step;

    open spec fn view(&self) -> Step {
        match self {
            NetStep::SaveSnapshot(list) => Step::SaveSnapshot(recorded(list@)),
            NetStep::SaveGuard => Step::SaveGuard,
            NetStep::Run(command) => Step::Run(command@),
            NetStep::RemoveSnapshot => Step::RemoveSnapshot,
            NetStep::RemoveGuard => Step::RemoveGuard,
        }
    }
}

/// The views of a list of steps.
pub open spec fn steps(list: Seq<NetStep>) -> Seq<Step> {
    list.map_values(|s: NetStep| s@)
}

/// The steps that run commands.
pub open spec fn runs(list: Seq<Command>) -> Seq<Step> {
    list.map_values(|c: Command| Step::Run(c))
}

/// The steps that turn the system proxy on: the snapshot, unless it was taken
/// before, is on disk before anything is changed.
pub open spec fn steps_on(snapshot: Option<Seq<Recorded>>, set: Seq<Command>) -> Seq<Step> {
    match snapshot {
        Some(list) => seq![Step::SaveSnapshot(list), Step::SaveGuard] + runs(set),
        None => runs(set),
    }
}

/// The steps that turn the system proxy off: the guard stays until everything
/// is restored, and the snapshot longer than the guard.
pub open spec fn steps_off(list: Seq<Command>) -> Seq<Step> {
    runs(list) + seq![Step::RemoveGuard, Step::RemoveSnapshot]
}

/// Add the steps that run commands.
fn add_runs(out: &mut Vec<NetStep>, list: Vec<NetCommand>)
    ensures
        steps(final(out)@) == steps(old(out)@) + runs(commands(list@)),
{
    let ghost before = steps(out@);
    let ghost all = commands(list@);
    let ghost items = list@;
    proof {
        assert(before + runs(all).take(0) =~= before);
    }
    for command in it: list
        invariant
            it.seq() == items,
            all == commands(items),
            steps(out@) == before + runs(all).take(it.index()),
    {
        let ghost was = steps(out@);
        let ghost k = it.index();
        out.push(NetStep::Run(command));
        proof {
            assert(runs(all)[k] == Step::Run(command@));
            assert(steps(out@) =~= was.push(runs(all)[k]));
            assert(was.push(runs(all)[k]) =~= before + runs(all).take(k + 1));
        }
    }
    proof {
        assert(runs(all).take(all.len() as int) =~= runs(all));
    }
}

/// The steps that turn the system proxy on, once its plan's questions are
/// answered.
pub fn enable_steps(
    plan: EnablePlan,
    services: &Vec<String>,
    guard: bool,
    outputs: &Vec<String>,
) -> (r: Vec<NetStep>)
    requires
        !guard ==> outputs@.len() == 2 * services@.len(),
    ensures
        steps(r@) == steps_on(
            if guard {
                None
            } else {
                Some(snapshot_of(text::texts(services@), text::texts(outputs@)))
            },
            commands(plan.set@),
        ),
{
    let mut out: Vec<NetStep> = Vec::new();
    if !guard {
        let snapshot = take_snapshot(services, outputs);
        out.push(NetStep::SaveSnapshot(snapshot));
        out.push(NetStep::SaveGuard);
        proof {
            assert(steps(out@) =~= seq![
                Step::SaveSnapshot(snapshot_of(text::texts(services@), text::texts(outputs@))),
                Step::SaveGuard,
            ]);
        }
    }
    let ghost saved = steps(out@);
    add_runs(&mut out, plan.set);
    proof {
        if guard {
            assert(saved + runs(commands(plan.set@)) =~= runs(commands(plan.set@)));
        }
    }
    out
}

/// The steps that turn the system proxy off by these commands.
pub fn disable_steps(list: Vec<NetCommand>) -> (r: Vec<NetStep>)
    ensures
        steps(r@) == steps_off(commands(list@)),
{
    let mut out: Vec<NetStep> = Vec::new();
    proof {
        assert(steps(out@) + runs(commands(list@)) =~= runs(commands(list@)));
    }
    add_runs(&mut out, list);
    let ghost before = steps(out@);
    out.push(NetStep::RemoveGuard);
    out.push(NetStep::RemoveSnapshot);
    proof {
        assert(steps(out@) =~= before + seq![Step::RemoveGuard, Step::RemoveSnapshot]);
    }
    out
}

/// The proxies of the network services, by service and kind of traffic.
pub type Network = Map<(Seq<char>, bool), Setting>;

/// What a command does. To set a proxy is to turn it on.
pub open spec fn effect(net: Network, c: Command) -> Network {
    match c {
        Command::Point { service, secure, server, port } => net.insert(
            (service, secure),
            Setting { enabled: true, server, port },
        ),
        Command::Switch { service, secure, on } => net.insert(
            (service, secure),
            Setting { enabled: on, ..net[(service, secure)] },
        ),
        _ => net,
    }
}

/// What a list of commands does.
pub open spec fn effects(net: Network, list: Seq<Command>) -> Network
    decreases list.len(),
{
    if list.len() == 0 {
        net
    } else {
        effect(effects(net, list.drop_last()), list.last())
    }
}

/// `now` is what `was` was, server and port among it. Where there was no
/// server, it is off.
pub open spec fn given_back(now: Setting, was: Setting) -> bool {
    if was.server.len() > 0 {
        now == was
    } else {
        !now.enabled
    }
}

/// Commands are carried out one after another.
proof fn lemma_effects_concat(net: Network, a: Seq<Command>, b: Seq<Command>)
    ensures
        effects(net, a + b) == effects(effects(net, a), b),
    decreases b.len(),
{
    if b.len() == 0 {
        assert(a + b =~= a);
    } else {
        lemma_effects_concat(net, a, b.drop_last());
        assert((a + b).drop_last() =~= a + b.drop_last());
    }
}

/// Restoring one proxy gives back what was, and touches no other.
proof fn lemma_restore_one(net: Network, service: Seq<char>, was: Setting, secure: bool)
    ensures
        ({
            let after = effects(net, restore_commands(service, was, secure));
            &&& given_back(after[(service, secure)], was)
            &&& forall|key: (Seq<char>, bool)|
                #![trigger after[key]]
                key != (service, secure) ==> after[key] == net[key]
        }),
{
    reveal_with_fuel(effects, 3);
    let list = restore_commands(service, was, secure);
    if list.len() == 2 {
        assert(list.drop_last() =~= seq![list[0]]);
        assert(list.drop_last().drop_last() =~= Seq::<Command>::empty());
    } else {
        assert(list.drop_last() =~= Seq::<Command>::empty());
    }
}

/// The snapshot tells the proxies of its services.
pub open spec fn tells(snapshot: Seq<Recorded>, net: Network) -> bool {
    forall|i: int|
        0 <= i < snapshot.len() ==> {
            &&& (#[trigger] snapshot[i]).web == net[(snapshot[i].service, false)]
            &&& snapshot[i].secure == net[(snapshot[i].service, true)]
        }
}

/// Whether a snapshot tells of a service.
pub open spec fn covers(snapshot: Seq<Recorded>, service: Seq<char>) -> bool {
    exists|i: int| 0 <= i < snapshot.len() && (#[trigger] snapshot[i]).service == service
}

/// Restoring a snapshot gives back, for each of its services, what was when it
/// was taken, whatever the settings have become since; it leaves every other
/// service alone.
pub proof fn law_restore_gives_back(
    before: Network,
    now: Network,
    snapshot: Seq<Recorded>,
    service: Seq<char>,
    secure: bool,
)
    requires
        tells(snapshot, before),
    ensures
        ({
            let after = effects(now, snapshot_commands(snapshot));
            if covers(snapshot, service) {
                given_back(after[(service, secure)], before[(service, secure)])
            } else {
                after[(service, secure)] == now[(service, secure)]
            }
        }),
    decreases snapshot.len(),
{
    if snapshot.len() > 0 {
        let shorter = snapshot.drop_last();
        let last = snapshot.last();
        let n = snapshot.len() - 1;
        assert forall|i: int| 0 <= i < shorter.len() implies {
            &&& (#[trigger] shorter[i]).web == before[(shorter[i].service, false)]
            &&& shorter[i].secure == before[(shorter[i].service, true)]
        } by {
            assert(shorter[i] == snapshot[i]);
        }
        assert(snapshot[n] == last);
        law_restore_gives_back(before, now, shorter, service, secure);
        let first = snapshot_commands(shorter);
        let web = restore_commands(last.service, last.web, false);
        let tls = restore_commands(last.service, last.secure, true);
        lemma_effects_concat(now, first + web, tls);
        lemma_effects_concat(now, first, web);
        let mid = effects(now, first);
        lemma_restore_one(mid, last.service, last.web, false);
        lemma_restore_one(effects(mid, web), last.service, last.secure, true);
        if service == last.service {
            assert(covers(snapshot, service));
        } else if covers(snapshot, service) {
            let i = choose|i: int|
                0 <= i < snapshot.len() && (#[trigger] snapshot[i]).service == service;
            assert(shorter[i].service == service);
        } else if covers(shorter, service) {
            let i = choose|i: int|
                0 <= i < shorter.len() && (#[trigger] shorter[i]).service == service;
            assert(snapshot[i].service == service);
        }
    } else {
        assert(effects(now, snapshot_commands(snapshot)) == now);
    }
}

/// Turning the system proxy on points both proxies of every service at the
/// local port, and touches no other service.
pub proof fn law_enable_points_every_service(
    net: Network,
    services: Seq<Seq<char>>,
    port: u16,
    service: Seq<char>,
    secure: bool,
)
    ensures
        ({
            let after = effects(net, set_commands(services, port));
            if services.contains(service) {
                after[(service, secure)] == (Setting {
                    enabled: true,
                    server: "127.0.0.1"@,
                    port: text::decimal_of(port as nat),
                })
            } else {
                after[(service, secure)] == net[(service, secure)]
            }
        }),
    decreases services.len(),
{
    if services.len() > 0 {
        let shorter = services.drop_last();
        let last = services.last();
        law_enable_points_every_service(net, shorter, port, service, secure);
        let server = "127.0.0.1"@;
        let port_text = text::decimal_of(port as nat);
        let pair = seq![
            Command::Point { service: last, secure: false, server, port: port_text },
            Command::Point { service: last, secure: true, server, port: port_text },
        ];
        lemma_effects_concat(net, set_commands(shorter, port), pair);
        reveal_with_fuel(effects, 3);
        assert(pair.drop_last() =~= seq![pair[0]]);
        assert(pair.drop_last().drop_last() =~= Seq::<Command>::empty());
        assert(services[services.len() - 1] == last);
        if services.contains(service) && service != last {
            let i = choose|i: int| 0 <= i < services.len() && services[i] == service;
            assert(shorter[i] == service);
        } else if shorter.contains(service) {
            let i = choose|i: int| 0 <= i < shorter.len() && shorter[i] == service;
            assert(services[i] == service);
        }
    }
}

/// Turning the system proxy on and off again gives back what was before, for
/// every service that was set, and leaves the others alone: the snapshot is of
/// the services that were set.
pub proof fn law_enable_then_disable_changes_nothing(
    before: Network,
    snapshot: Seq<Recorded>,
    services: Seq<Seq<char>>,
    port: u16,
    service: Seq<char>,
    secure: bool,
)
    requires
        tells(snapshot, before),
        forall|i: int| 0 <= i < services.len() ==> covers(snapshot, #[trigger] services[i]),
    ensures
        ({
            let after = effects(
                effects(before, set_commands(services, port)),
                snapshot_commands(snapshot),
            );
            if covers(snapshot, service) {
                given_back(after[(service, secure)], before[(service, secure)])
            } else {
                after[(service, secure)] == before[(service, secure)]
            }
        }),
{
    let on = effects(before, set_commands(services, port));
    law_enable_points_every_service(before, services, port, service, secure);
    law_restore_gives_back(before, on, snapshot, service, secure);
    if services.contains(service) {
        let i = choose|i: int| 0 <= i < services.len() && services[i] == service;
        assert(covers(snapshot, services[i]));
    }
}

/// Without a snapshot, the proxies of every listed service are off after the
/// system proxy is turned off, and else as they were; other services are left
/// alone.
pub proof fn law_switch_off_leaves_none(
    net: Network,
    services: Seq<Seq<char>>,
    service: Seq<char>,
    secure: bool,
)
    ensures
        ({
            let after = effects(net, off_commands(services));
            if services.contains(service) {
                after[(service, secure)] == (Setting { enabled: false, ..net[(service, secure)] })
            } else {
                after[(service, secure)] == net[(service, secure)]
            }
        }),
    decreases services.len(),
{
    if services.len() > 0 {
        let shorter = services.drop_last();
        let last = services.last();
        law_switch_off_leaves_none(net, shorter, service, secure);
        let pair = seq![
            Command::Switch { service: last, secure: false, on: false },
            Command::Switch { service: last, secure: true, on: false },
        ];
        lemma_effects_concat(net, off_commands(shorter), pair);
        reveal_with_fuel(effects, 3);
        assert(pair.drop_last() =~= seq![pair[0]]);
        assert(pair.drop_last().drop_last() =~= Seq::<Command>::empty());
        assert(services[services.len() - 1] == last);
        if services.contains(service) && service != last {
            let i = choose|i: int| 0 <= i < services.len() && services[i] == service;
            assert(shorter[i] == service);
        } else if shorter.contains(service) {
            let i = choose|i: int| 0 <= i < shorter.len() && shorter[i] == service;
            assert(services[i] == service);
        }
    }
}

/// The network with the files that make its settings recoverable.
pub struct Machine {
    pub net: Network,
    pub snapshot: Option<Seq<Recorded>>,
    pub guard: bool,
}

/// What a step does.
pub open spec fn step_effect(m: Machine, step: Step) -> Machine {
    match step {
        Step::SaveSnapshot(list) => Machine { snapshot: Some(list), ..m },
        Step::SaveGuard => Machine { guard: true, ..m },
        Step::Run(c) => Machine { net: effect(m.net, c), ..m },
        Step::RemoveSnapshot => Machine { snapshot: None, ..m },
        Step::RemoveGuard => Machine { guard: false, ..m },
    }
}

/// What a list of steps does.
pub open spec fn step_effects(m: Machine, list: Seq<Step>) -> Machine
    decreases list.len(),
{
    if list.len() == 0 {
        m
    } else {
        step_effect(step_effects(m, list.drop_last()), list.last())
    }
}

/// The network after the next launch has repaired it: where the guard is
/// there, what the snapshot tells is restored, and without a snapshot the
/// proxies of all services are switched off.
pub open spec fn repaired(m: Machine, listed: Seq<Seq<char>>) -> Network {
    if !m.guard {
        m.net
    } else if m.snapshot is Some && m.snapshot->0.len() > 0 {
        effects(m.net, snapshot_commands(m.snapshot->0))
    } else {
        effects(m.net, off_commands(listed))
    }
}

/// Running commands changes the network and nothing else.
proof fn lemma_runs(m: Machine, list: Seq<Command>)
    ensures
        step_effects(m, runs(list)) == (Machine { net: effects(m.net, list), ..m }),
    decreases list.len(),
{
    if list.len() > 0 {
        lemma_runs(m, list.drop_last());
        assert(runs(list).drop_last() =~= runs(list.drop_last()));
        assert(runs(list).last() == Step::Run(list.last()));
    }
}

/// Steps are carried out one after another.
proof fn lemma_step_effects_concat(m: Machine, a: Seq<Step>, b: Seq<Step>)
    ensures
        step_effects(m, a + b) == step_effects(step_effects(m, a), b),
    decreases b.len(),
{
    if b.len() == 0 {
        assert(a + b =~= a);
    } else {
        lemma_step_effects_concat(m, a, b.drop_last());
        assert((a + b).drop_last() =~= a + b.drop_last());
    }
}

/// Commands to some of the services leave every other one alone.
proof fn lemma_set_prefix(
    net: Network,
    services: Seq<Seq<char>>,
    port: u16,
    k: int,
    service: Seq<char>,
    secure: bool,
)
    requires
        0 <= k <= set_commands(services, port).len(),
        !services.contains(service),
    ensures
        effects(net, set_commands(services, port).take(k))[(service, secure)] == net[(
            service,
            secure,
        )],
    decreases services.len(),
{
    let all = set_commands(services, port);
    if services.len() == 0 {
        assert(all.take(k) =~= Seq::<Command>::empty());
    } else {
        let shorter = services.drop_last();
        let first = set_commands(shorter, port);
        let last = services.last();
        assert(services[services.len() - 1] == last);
        assert forall|s: Seq<char>| shorter.contains(s) implies services.contains(s) by {
            let i = choose|i: int| 0 <= i < shorter.len() && shorter[i] == s;
            assert(services[i] == s);
        }
        if k <= first.len() {
            assert(all.take(k) =~= first.take(k));
            lemma_set_prefix(net, shorter, port, k, service, secure);
        } else {
            assert(first.take(first.len() as int) =~= first);
            lemma_set_prefix(net, shorter, port, first.len() as int, service, secure);
            let some = all.take(k).skip(first.len() as int);
            assert(all.take(k) =~= first + some);
            lemma_effects_concat(net, first, some);
            reveal_with_fuel(effects, 3);
            if some.len() == 1 {
                assert(some.drop_last() =~= Seq::<Command>::empty());
            } else {
                assert(some.drop_last() =~= seq![some[0]]);
                assert(some.drop_last().drop_last() =~= Seq::<Command>::empty());
            }
        }
    }
}

/// Whatever interrupts turning the system proxy on, after however many steps,
/// the next launch gives back what was before, for every service: nothing is
/// changed before the snapshot and the guard are on disk. A snapshot that an
/// earlier run left does no harm.
pub proof fn law_interrupted_enable_is_repaired(
    before: Network,
    left: Option<Seq<Recorded>>,
    snapshot: Seq<Recorded>,
    services: Seq<Seq<char>>,
    port: u16,
    listed: Seq<Seq<char>>,
    k: int,
    service: Seq<char>,
    secure: bool,
)
    requires
        tells(snapshot, before),
        services.len() > 0,
        forall|i: int| 0 <= i < services.len() ==> covers(snapshot, #[trigger] services[i]),
        0 <= k <= steps_on(Some(snapshot), set_commands(services, port)).len(),
    ensures
        ({
            let m = Machine { net: before, snapshot: left, guard: false };
            let after = repaired(
                step_effects(m, steps_on(Some(snapshot), set_commands(services, port)).take(k)),
                listed,
            );
            ||| after[(service, secure)] == before[(service, secure)]
            ||| covers(snapshot, service) && given_back(
                after[(service, secure)],
                before[(service, secure)],
            )
        }),
{
    let m = Machine { net: before, snapshot: left, guard: false };
    let set = set_commands(services, port);
    let all = steps_on(Some(snapshot), set);
    let head = seq![Step::SaveSnapshot(snapshot), Step::SaveGuard];
    assert(covers(snapshot, services[0]));
    reveal_with_fuel(step_effects, 3);
    if k == 0 {
        assert(all.take(0) =~= Seq::<Step>::empty());
    } else if k == 1 {
        assert(all.take(1) =~= seq![head[0]]);
        assert(seq![head[0]].drop_last() =~= Seq::<Step>::empty());
    } else {
        let some = set.take(k - 2);
        assert(all.take(k) =~= head + runs(some));
        lemma_step_effects_concat(m, head, runs(some));
        assert(head.drop_last() =~= seq![head[0]]);
        assert(head.drop_last().drop_last() =~= Seq::<Step>::empty());
        let saved = Machine { net: before, snapshot: Some(snapshot), guard: true };
        assert(step_effects(m, head) == saved);
        lemma_runs(saved, some);
        let now = effects(before, some);
        law_restore_gives_back(before, now, snapshot, service, secure);
        if !covers(snapshot, service) {
            if services.contains(service) {
                let i = choose|i: int| 0 <= i < services.len() && services[i] == service;
                assert(covers(snapshot, services[i]));
            }
            lemma_set_prefix(before, services, port, k - 2, service, secure);
        }
    }
}

/// Restoring a part of a snapshot leaves the services alone that it does not
/// tell of.
proof fn lemma_restore_prefix(
    now: Network,
    snapshot: Seq<Recorded>,
    k: int,
    service: Seq<char>,
    secure: bool,
)
    requires
        0 <= k <= snapshot_commands(snapshot).len(),
        !covers(snapshot, service),
    ensures
        effects(now, snapshot_commands(snapshot).take(k))[(service, secure)] == now[(
            service,
            secure,
        )],
    decreases snapshot.len(),
{
    let all = snapshot_commands(snapshot);
    if snapshot.len() == 0 {
        assert(all.take(k) =~= Seq::<Command>::empty());
    } else {
        let shorter = snapshot.drop_last();
        let first = snapshot_commands(shorter);
        let last = snapshot.last();
        assert(snapshot[snapshot.len() - 1] == last);
        assert forall|i: int| 0 <= i < shorter.len() implies (#[trigger] shorter[i]).service
            != service by {
            assert(snapshot[i].service != service);
        }
        if k <= first.len() {
            assert(all.take(k) =~= first.take(k));
            lemma_restore_prefix(now, shorter, k, service, secure);
        } else {
            assert(first.take(first.len() as int) =~= first);
            lemma_restore_prefix(now, shorter, first.len() as int, service, secure);
            let some = all.take(k).skip(first.len() as int);
            assert(all.take(k) =~= first + some);
            lemma_effects_concat(now, first, some);
            let tail = restore_commands(last.service, last.web, false) + restore_commands(
                last.service,
                last.secure,
                true,
            );
            assert(all =~= first + tail);
            assert(some =~= tail.take(k - first.len()));
            lemma_one_service(effects(now, first), last.service, some, service, secure);
        }
    }
}

/// Commands to one service leave another one alone.
proof fn lemma_one_service(
    net: Network,
    one: Seq<char>,
    list: Seq<Command>,
    service: Seq<char>,
    secure: bool,
)
    requires
        one != service,
        forall|i: int|
            0 <= i < list.len() ==> match #[trigger] list[i] {
                Command::Point { service: s, .. } => s == one,
                Command::Switch { service: s, .. } => s == one,
                _ => true,
            },
    ensures
        effects(net, list)[(service, secure)] == net[(service, secure)],
    decreases list.len(),
{
    if list.len() > 0 {
        let shorter = list.drop_last();
        assert forall|i: int| 0 <= i < shorter.len() implies match #[trigger] shorter[i] {
            Command::Point { service: s, .. } => s == one,
            Command::Switch { service: s, .. } => s == one,
            _ => true,
        } by {
            assert(shorter[i] == list[i]);
        }
        lemma_one_service(net, one, shorter, service, secure);
        assert(list[list.len() - 1] == list.last());
    }
}

/// Whatever interrupts turning the system proxy off, after however many
/// steps, what was before the snapshot is given back after the next launch for
/// every service that the snapshot tells of, and every other service is left
/// alone.
pub proof fn law_interrupted_disable_is_repaired(
    before: Network,
    now: Network,
    snapshot: Seq<Recorded>,
    listed: Seq<Seq<char>>,
    k: int,
    service: Seq<char>,
    secure: bool,
)
    requires
        tells(snapshot, before),
        snapshot.len() > 0,
        0 <= k <= steps_off(snapshot_commands(snapshot)).len(),
    ensures
        ({
            let m = Machine { net: now, snapshot: Some(snapshot), guard: true };
            let after = repaired(
                step_effects(m, steps_off(snapshot_commands(snapshot)).take(k)),
                listed,
            );
            if covers(snapshot, service) {
                given_back(after[(service, secure)], before[(service, secure)])
            } else {
                after[(service, secure)] == now[(service, secure)]
            }
        }),
{
    let m = Machine { net: now, snapshot: Some(snapshot), guard: true };
    let list = snapshot_commands(snapshot);
    let all = steps_off(list);
    let tail = seq![Step::RemoveGuard, Step::RemoveSnapshot];
    if k <= list.len() {
        let some = list.take(k);
        assert(all.take(k) =~= runs(some));
        lemma_runs(m, some);
        law_restore_gives_back(before, effects(now, some), snapshot, service, secure);
        if !covers(snapshot, service) {
            lemma_restore_prefix(now, snapshot, k, service, secure);
        }
    } else {
        let some = tail.take(k - list.len());
        assert(all.take(k) =~= runs(list) + some);
        lemma_step_effects_concat(m, runs(list), some);
        lemma_runs(m, list);
        reveal_with_fuel(step_effects, 3);
        if k == list.len() + 1 {
            assert(some =~= seq![tail[0]]);
            assert(some.drop_last() =~= Seq::<Step>::empty());
        } else {
            assert(some =~= tail);
            assert(tail.drop_last() =~= seq![tail[0]]);
            assert(tail.drop_last().drop_last() =~= Seq::<Step>::empty());
        }
        law_restore_gives_back(before, now, snapshot, service, secure);
    }
}

/// What `networksetup` is told to do by some arguments, as its manual has it.
pub open spec fn meant_by(args: Seq<Seq<char>>) -> Option<Command> {
    if args.len() == 1 && args[0] == "-listallnetworkservices"@ {
        Some(Command::ListServices)
    } else if args.len() == 2 && args[0] == "-getwebproxy"@ {
        Some(Command::Get { service: args[1], secure: false })
    } else if args.len() == 2 && args[0] == "-getsecurewebproxy"@ {
        Some(Command::Get { service: args[1], secure: true })
    } else if args.len() == 4 && args[0] == "-setwebproxy"@ {
        Some(Command::Point { service: args[1], secure: false, server: args[2], port: args[3] })
    } else if args.len() == 4 && args[0] == "-setsecurewebproxy"@ {
        Some(Command::Point { service: args[1], secure: true, server: args[2], port: args[3] })
    } else if args.len() == 3 && args[0] == "-setwebproxystate"@ && (args[2] == "on"@ || args[2]
        == "off"@) {
        Some(Command::Switch { service: args[1], secure: false, on: args[2] == "on"@ })
    } else if args.len() == 3 && args[0] == "-setsecurewebproxystate"@ && (args[2] == "on"@
        || args[2] == "off"@) {
        Some(Command::Switch { service: args[1], secure: true, on: args[2] == "on"@ })
    } else {
        None
    }
}

/// The arguments of a command tell `networksetup` to do that and nothing else.
pub proof fn law_arguments_mean_the_command(c: Command)
    ensures
        meant_by(arguments(c)) == Some(c),
{
    reveal_strlit("-getwebproxy");
    reveal_strlit("-getsecurewebproxy");
    reveal_strlit("-setwebproxy");
    reveal_strlit("-setsecurewebproxy");
    reveal_strlit("-setwebproxystate");
    reveal_strlit("-setsecurewebproxystate");
    reveal_strlit("on");
    reveal_strlit("off");
    assert("on"@.len() != "off"@.len());
    assert("-getwebproxy"@.len() != "-getsecurewebproxy"@.len());
    assert("-setwebproxy"@.len() != "-setsecurewebproxy"@.len());
    assert("-setwebproxystate"@.len() != "-setsecurewebproxystate"@.len());
}

/// Different commands have different arguments.
pub proof fn law_arguments_differ(c: Command, d: Command)
    requires
        arguments(c) == arguments(d),
    ensures
        c == d,
{
    law_arguments_mean_the_command(c);
    law_arguments_mean_the_command(d);
}

/// A line of output that is a key, a colon and a value, with white space
/// around either, sets what the key names and nothing else: `Enabled` to
/// whether the value is `yes` in either case, `Server` and `Port` to the value.
pub proof fn law_line_sets_what_it_names(
    state: Setting,
    value: Seq<char>,
    before: Seq<char>,
    after: Seq<char>,
)
    requires
        value.len() > 0,
        !text::is_space(value[0]),
        !text::is_space(value.last()),
        text::all_space(before),
        text::all_space(after),
    ensures
        with_line(state, "Enabled"@ + seq![':'] + (before + value + after)) == (Setting {
            enabled: value.len() == 3 && text::same_but_for_case(value[0], 'y')
                && text::same_but_for_case(value[1], 'e') && text::same_but_for_case(value[2], 's'),
            ..state
        }),
        with_line(state, "Server"@ + seq![':'] + (before + value + after)) == (Setting {
            server: value,
            ..state
        }),
        with_line(state, "Port"@ + seq![':'] + (before + value + after)) == (Setting {
            port: value,
            ..state
        }),
{
    let padded = before + value + after;
    text::law_trimming_undoes_padding(before, value, after);
    reveal_strlit("Enabled");
    reveal_strlit("Server");
    reveal_strlit("Port");
    reveal_strlit("yes");
    lemma_key_line("Enabled"@, padded);
    lemma_key_line("Server"@, padded);
    lemma_key_line("Port"@, padded);
    assert("Enabled"@.len() != "Server"@.len() && "Server"@.len() != "Port"@.len()
        && "Enabled"@.len() != "Port"@.len());
    text::law_folded_texts_agree(value, "yes"@);
    assert(text::lower("yes"@) =~= "yes"@);
    if value.len() == 3 && text::same_but_for_case(value[0], 'y') && text::same_but_for_case(
        value[1],
        'e',
    ) && text::same_but_for_case(value[2], 's') {
        assert forall|i: int| 0 <= i < value.len() implies text::same_but_for_case(
            #[trigger] value[i],
            "yes"@[i],
        ) by {
            assert(i == 0 || i == 1 || i == 2);
        }
    }
    if text::lower(value) == "yes"@ {
        assert(text::same_but_for_case(value[0], "yes"@[0]));
        assert(text::same_but_for_case(value[1], "yes"@[1]));
        assert(text::same_but_for_case(value[2], "yes"@[2]));
    }
}

/// A line is cut at its colon, and a key has no white space around it.
proof fn lemma_key_line(key: Seq<char>, value: Seq<char>)
    requires
        key.len() > 0,
        forall|i: int| 0 <= i < key.len() ==> #[trigger] key[i] != ':',
        !text::is_space(key[0]),
        !text::is_space(key.last()),
    ensures
        text::cut(key + seq![':'] + value, ":"@) == Some((key, value)),
        text::trimmed(key) == key,
{
    let line = key + seq![':'] + value;
    let n = key.len() as int;
    reveal_strlit(":");
    assert(line.subrange(n, n + 1) =~= ":"@);
    assert forall|j: int| 0 <= j < n implies !text::occurs_at(line, ":"@, j) by {
        assert(line.subrange(j, j + 1)[0] == key[j]);
    }
    text::lemma_cut_at(line, ":"@, n);
    assert(line.take(n) =~= key);
    assert(line.skip(n + 1) =~= value);
    let none: Seq<char> = Seq::empty();
    text::law_trimming_undoes_padding(none, key, none);
    assert(none + key + none =~= key);
}

/// A line without a colon, or with another key, changes nothing.
pub proof fn law_other_lines_change_nothing(state: Setting, key: Seq<char>, value: Seq<char>)
    requires
        key.len() > 0,
        forall|i: int| 0 <= i < key.len() ==> #[trigger] key[i] != ':',
        !text::is_space(key[0]),
        !text::is_space(key.last()),
        key != "Enabled"@,
        key != "Server"@,
        key != "Port"@,
    ensures
        with_line(state, key + seq![':'] + value) == state,
        with_line(state, key) == state,
{
    lemma_key_line(key, value);
    reveal_strlit(":");
    if text::contains_text(key, ":"@) {
        let i = choose|i: int| text::occurs_at(key, ":"@, i);
        assert(key.subrange(i, i + 1)[0] == ':');
        assert(key[i] == ':');
    }
}

/// Lines are taken one after the other, from a proxy that is off and without a
/// server on.
pub proof fn law_lines_are_taken_in_order(lines: Seq<Seq<char>>, line: Seq<char>)
    ensures
        !setting_in(Seq::empty()).enabled,
        setting_in(Seq::empty()).server.len() == 0,
        setting_in(Seq::empty()).port.len() == 0,
        setting_in(lines.push(line)) == with_line(setting_in(lines), line),
{
    reveal_strlit("");
    assert(lines.push(line).drop_last() =~= lines);
}

/// The proxy of a service is read from what `networksetup` prints of it.
pub proof fn law_printed_proxy_is_read(enabled: bool, server: Seq<char>, port: Seq<char>)
    requires
        server.len() > 0,
        !text::is_space(server[0]),
        !text::is_space(server.last()),
        !server.contains('\n'),
        port.len() > 0,
        !text::is_space(port[0]),
        !text::is_space(port.last()),
        !port.contains('\n'),
    ensures
        ({
            let yes = if enabled {
                "Yes"@
            } else {
                "No"@
            };
            let printed = text::ended(
                seq![
                    "Enabled"@ + seq![':'] + (seq![' '] + yes + Seq::<char>::empty()),
                    "Server"@ + seq![':'] + (seq![' '] + server + Seq::<char>::empty()),
                    "Port"@ + seq![':'] + (seq![' '] + port + Seq::<char>::empty()),
                ],
            );
            setting_in(text::lines_of(printed)) == (Setting { enabled, server, port })
        }),
{
    reveal_strlit("Enabled");
    reveal_strlit("Server");
    reveal_strlit("Port");
    reveal_strlit("Yes");
    reveal_strlit("No");
    let yes = if enabled {
        "Yes"@
    } else {
        "No"@
    };
    let blank = seq![' '];
    let none: Seq<char> = Seq::empty();
    let a = "Enabled"@ + seq![':'] + (blank + yes + none);
    let b = "Server"@ + seq![':'] + (blank + server + none);
    let c = "Port"@ + seq![':'] + (blank + port + none);
    let lines = seq![a, b, c];
    assert(!a.contains('\n') && a.last() == yes.last());
    lemma_no_break("Server"@, server);
    lemma_no_break("Port"@, port);
    assert(b.last() == server.last() && c.last() == port.last());
    assert(text::is_space('\r'));
    assert forall|i: int| 0 <= i < lines.len() implies !(#[trigger] lines[i]).contains('\n') && (
    lines[i].len() > 0 ==> lines[i].last() != '\r') by {
        assert(i == 0 || i == 1 || i == 2);
    }
    text::law_lines_of_ended_lines(lines);
    let s0 = setting_in(Seq::empty());
    law_line_sets_what_it_names(s0, yes, blank, none);
    let s1 = with_line(s0, a);
    law_line_sets_what_it_names(s1, server, blank, none);
    let s2 = with_line(s1, b);
    law_line_sets_what_it_names(s2, port, blank, none);
    let e: Seq<Seq<char>> = Seq::empty();
    law_lines_are_taken_in_order(e, a);
    law_lines_are_taken_in_order(e.push(a), b);
    law_lines_are_taken_in_order(e.push(a).push(b), c);
    assert(lines =~= e.push(a).push(b).push(c));
    assert(s1.enabled == enabled);
}

/// A line of a key and a value without line endings has none.
proof fn lemma_no_break(key: Seq<char>, value: Seq<char>)
    requires
        !key.contains('\n'),
        !value.contains('\n'),
    ensures
        !(key + seq![':'] + (seq![' '] + value + Seq::<char>::empty())).contains('\n'),
{
    let line = key + seq![':'] + (seq![' '] + value + Seq::<char>::empty());
    if line.contains('\n') {
        let i = choose|i: int| 0 <= i < line.len() && line[i] == '\n';
        if i < key.len() {
            assert(key[i] == '\n');
        } else if i >= key.len() + 2 {
            assert(value[i - key.len() - 2] == '\n');
        }
    }
}

/// The services are told line by line after the explanation in the first: a
/// line is a service, without the white space around it, unless it is blank or
/// marked as disabled by a `*`.
pub proof fn law_services_are_the_unmarked_lines(
    lines: Seq<Seq<char>>,
    before: Seq<char>,
    name: Seq<char>,
    after: Seq<char>,
    first: Seq<char>,
    rest: Seq<char>,
)
    requires
        text::all_space(before),
        text::all_space(after),
        name.len() > 0,
        !text::is_space(name[0]),
        !text::is_space(name.last()),
        !first.contains('\n'),
    ensures
        active_services(Seq::empty()).len() == 0,
        name[0] != '*' ==> active_services(lines.push(before + name + after)) == active_services(
            lines,
        ).push(name),
        name[0] == '*' ==> active_services(lines.push(before + name + after)) == active_services(
            lines,
        ),
        active_services(lines.push(before)) == active_services(lines),
        services_in(first + seq!['\n'] + rest) == active_services(text::lines_of(rest)),
{
    let line = before + name + after;
    text::law_trimming_undoes_padding(before, name, after);
    assert(lines.push(line).drop_last() =~= lines);
    assert(lines.push(before).drop_last() =~= lines);
    text::law_trimming_takes_the_space_around(before);
    let t = text::trimmed(before);
    if t.len() > 0 {
        let (x, y) = choose|x: Seq<char>, y: Seq<char>|
            before == #[trigger] (x + t + y) && text::all_space(x) && text::all_space(y);
        assert(before[x.len() as int] == t[0]);
    }
    let output = first + seq!['\n'] + rest;
    text::lemma_before_char(first, '\n', rest);
    assert(output.skip(first.len() as int + 1) =~= rest);
    assert(text::lines_of(output).skip(1) =~= text::lines_of(rest));
}

/// Both proxies of every service are asked for, set and switched off, service
/// by service: first that for http, then that for https. They are set to this
/// machine, at the port of the proxy.
pub proof fn law_commands_go_service_by_service(
    services: Seq<Seq<char>>,
    service: Seq<char>,
    port: u16,
)
    ensures
        get_commands(Seq::empty()).len() == 0,
        get_commands(services.push(service)) == get_commands(services).push(
            Command::Get { service, secure: false },
        ).push(Command::Get { service, secure: true }),
        set_commands(Seq::empty(), port).len() == 0,
        set_commands(services.push(service), port) == set_commands(services, port).push(
            Command::Point {
                service,
                secure: false,
                server: "127.0.0.1"@,
                port: text::decimal_of(port as nat),
            },
        ).push(
            Command::Point {
                service,
                secure: true,
                server: "127.0.0.1"@,
                port: text::decimal_of(port as nat),
            },
        ),
        off_commands(Seq::empty()).len() == 0,
        off_commands(services.push(service)) == off_commands(services).push(
            Command::Switch { service, secure: false, on: false },
        ).push(Command::Switch { service, secure: true, on: false }),
{
    assert(services.push(service).drop_last() =~= services);
    assert(get_commands(services.push(service)) =~= get_commands(services).push(
        Command::Get { service, secure: false },
    ).push(Command::Get { service, secure: true }));
    assert(set_commands(services.push(service), port) =~= set_commands(services, port).push(
        Command::Point {
            service,
            secure: false,
            server: "127.0.0.1"@,
            port: text::decimal_of(port as nat),
        },
    ).push(
        Command::Point {
            service,
            secure: true,
            server: "127.0.0.1"@,
            port: text::decimal_of(port as nat),
        },
    ));
    assert(off_commands(services.push(service)) =~= off_commands(services).push(
        Command::Switch { service, secure: false, on: false },
    ).push(Command::Switch { service, secure: true, on: false }));
}

/// A proxy is restored by setting it to its server and port and then on or
/// off, as it was; one that had no server is only switched off.
pub proof fn law_restoring_sets_then_switches(service: Seq<char>, was: Setting, secure: bool)
    ensures
        was.server.len() == 0 ==> restore_commands(service, was, secure) == seq![
            Command::Switch { service, secure, on: false },
        ],
        was.server.len() > 0 ==> {
            let list = restore_commands(service, was, secure);
            &&& list.len() == 2
            &&& list[0] == (Command::Point { service, secure, server: was.server, port: was.port })
            &&& list[1] == (Command::Switch { service, secure, on: was.enabled })
        },
{
}

/// A snapshot tells each service by what was printed of its two proxies, and
/// in the order of the services.
pub proof fn law_snapshot_tells_each_service(
    services: Seq<Seq<char>>,
    outputs: Seq<Seq<char>>,
    i: int,
)
    requires
        0 <= i < services.len(),
    ensures
        snapshot_of(services, outputs).len() == services.len(),
        snapshot_of(services, outputs)[i].service == services[i],
        snapshot_of(services, outputs)[i].web == setting_in(text::lines_of(outputs[i + i])),
        snapshot_of(services, outputs)[i].secure == setting_in(text::lines_of(outputs[i + i + 1])),
{
}

/// The snapshot and then the guard are on disk before any command runs, and
/// when the proxy is turned off both stay until every command has run, the
/// snapshot longest.
pub proof fn law_snapshot_outlives_the_commands(
    snapshot: Seq<Recorded>,
    list: Seq<Command>,
    i: int,
)
    requires
        0 <= i < list.len(),
    ensures
        steps_on(Some(snapshot), list).len() == list.len() + 2,
        steps_on(Some(snapshot), list)[0] == Step::SaveSnapshot(snapshot),
        steps_on(Some(snapshot), list)[1] is SaveGuard,
        steps_on(Some(snapshot), list)[i + 2] == Step::Run(list[i]),
        steps_on(None, list).len() == list.len(),
        steps_on(None, list)[i] == Step::Run(list[i]),
        steps_off(list).len() == list.len() + 2,
        steps_off(list)[i] == Step::Run(list[i]),
        steps_off(list)[list.len() as int] is RemoveGuard,
        steps_off(list)[list.len() as int + 1] is RemoveSnapshot,
{
}

/// A command is told in an error as it would be typed: its arguments, with a
/// space between each two.
pub proof fn law_spaced_arguments(parts: Seq<Seq<char>>, part: Seq<char>)
    ensures
        spaced(Seq::empty()).len() == 0,
        parts.len() == 0 ==> spaced(parts.push(part)) == part,
        parts.len() > 0 ==> spaced(parts.push(part)) == spaced(parts) + seq![' '] + part,
{
    reveal_strlit(" ");
    assert(" "@ =~= seq![' ']);
    assert(parts.push(part).drop_last() =~= parts);
}

/// What a command hands to `networksetup` tells it to do just that.
pub proof fn law_command_line_means_the_command(command: &NetCommand, r: Vec<String>)
    requires
        call_ensures(NetCommand::args, (command,), r),
    ensures
        meant_by(text::texts(r@)) == Some(command@),
{
    law_arguments_mean_the_command(command@);
}

/// What is printed of a proxy is read again: whether it is on, its server and
/// its port.
pub proof fn law_reading_a_printed_proxy(
    enabled: bool,
    server: Seq<char>,
    port: Seq<char>,
    output: &str,
    r: ProxyState,
)
    requires
        server.len() > 0,
        !text::is_space(server[0]),
        !text::is_space(server.last()),
        !server.contains('\n'),
        port.len() > 0,
        !text::is_space(port[0]),
        !text::is_space(port.last()),
        !port.contains('\n'),
        output@ == text::ended(
            seq![
                "Enabled"@ + seq![':'] + (seq![' '] + (if enabled {
                    "Yes"@
                } else {
                    "No"@
                }) + Seq::<char>::empty()),
                "Server"@ + seq![':'] + (seq![' '] + server + Seq::<char>::empty()),
                "Port"@ + seq![':'] + (seq![' '] + port + Seq::<char>::empty()),
            ],
        ),
        call_ensures(get_state, (output,), r),
    ensures
        r.enabled == enabled,
        r.server@ == server,
        r.port@ == port,
{
    law_printed_proxy_is_read(enabled, server, port);
}

/// The system proxy is turned on only where there is a service. Every service
/// then gets two commands, and two questions are asked of it unless a snapshot
/// was taken before.
pub proof fn law_enabling_reaches_every_service(
    services: &Vec<String>,
    guard: bool,
    port: u16,
    r: Result<EnablePlan, String>,
)
    requires
        call_ensures(enable, (services, guard, port), r),
    ensures
        r is Err <==> services@.len() == 0,
        r matches Ok(plan) ==> {
            &&& plan.set@.len() == 2 * services@.len()
            &&& guard ==> plan.ask@.len() == 0
            &&& !guard ==> plan.ask@.len() == 2 * services@.len()
            &&& forall|i: int|
                0 <= i < services@.len() ==> {
                    &&& commands(plan.set@)[2 * i] == (Command::Point {
                        service: (#[trigger] services@[i])@,
                        secure: false,
                        server: "127.0.0.1"@,
                        port: text::decimal_of(port as nat),
                    })
                    &&& commands(plan.set@)[2 * i + 1] == (Command::Point {
                        service: services@[i]@,
                        secure: true,
                        server: "127.0.0.1"@,
                        port: text::decimal_of(port as nat),
                    })
                }
        },
{
    if let Ok(plan) = r {
        let all = text::texts(services@);
        lemma_commands_by_service(all, port);
        assert(commands(plan.set@).len() == plan.set@.len());
        assert(commands(plan.ask@).len() == plan.ask@.len());
        assert forall|i: int| 0 <= i < services@.len() implies {
            &&& commands(plan.set@)[2 * i] == (Command::Point {
                service: (#[trigger] services@[i])@,
                secure: false,
                server: "127.0.0.1"@,
                port: text::decimal_of(port as nat),
            })
            &&& commands(plan.set@)[2 * i + 1] == (Command::Point {
                service: services@[i]@,
                secure: true,
                server: "127.0.0.1"@,
                port: text::decimal_of(port as nat),
            })
        } by {
            assert(all[i] == services@[i]@);
        }
    }
}

/// Where the commands of each service stand.
proof fn lemma_commands_by_service(services: Seq<Seq<char>>, port: u16)
    ensures
        get_commands(services).len() == 2 * services.len(),
        set_commands(services, port).len() == 2 * services.len(),
        forall|i: int|
            0 <= i < services.len() ==> {
                &&& set_commands(services, port)[2 * i] == (Command::Point {
                    service: #[trigger] services[i],
                    secure: false,
                    server: "127.0.0.1"@,
                    port: text::decimal_of(port as nat),
                })
                &&& set_commands(services, port)[2 * i + 1] == (Command::Point {
                    service: services[i],
                    secure: true,
                    server: "127.0.0.1"@,
                    port: text::decimal_of(port as nat),
                })
            },
    decreases services.len(),
{
    if services.len() > 0 {
        let fewer = services.drop_last();
        lemma_commands_by_service(fewer, port);
        assert forall|i: int| 0 <= i < services.len() implies {
            &&& set_commands(services, port)[2 * i] == (Command::Point {
                service: #[trigger] services[i],
                secure: false,
                server: "127.0.0.1"@,
                port: text::decimal_of(port as nat),
            })
            &&& set_commands(services, port)[2 * i + 1] == (Command::Point {
                service: services[i],
                secure: true,
                server: "127.0.0.1"@,
                port: text::decimal_of(port as nat),
            })
        } by {
            if i < fewer.len() {
                assert(fewer[i] == services[i]);
                assert(set_commands(services, port)[2 * i] == set_commands(fewer, port)[2 * i]);
                assert(set_commands(services, port)[2 * i + 1] == set_commands(fewer, port)[2 * i
                    + 1]);
            } else {
                assert(services[i] == services.last());
            }
        }
    }
}

/// A command that failed is told as it was typed, with what it said; of one
/// that did not fail its output is handed on.
pub proof fn law_failed_command_is_told(
    command: &NetCommand,
    success: bool,
    stdout: &Vec<u8>,
    stderr: &Vec<u8>,
    r: Result<String, String>,
)
    requires
        call_ensures(run, (command, success, stdout, stderr), r),
    ensures
        r is Ok <==> success,
        r is Ok ==> r->Ok_0@ == text::lossy_text(stdout@),
        r is Err ==> text::ends(r->Err_0@, text::trimmed(text::lossy_text(stderr@))),
        r is Err ==> text::contains_text(r->Err_0@, spaced(arguments(command@))),
{
    if r is Err {
        reveal_strlit("networksetup ");
        let t = r->Err_0@;
        let said = text::trimmed(text::lossy_text(stderr@));
        let typed = spaced(arguments(command@));
        assert(t.skip(t.len() - said.len()) =~= said);
        assert(t.subrange(13, 13 + typed.len() as int) =~= typed);
        assert(text::occurs_at(t, typed, 13));
    }
}

} // verus!
