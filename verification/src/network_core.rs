//! Probing one host: what is done next, and what is recorded of the host.

use vstd::prelude::*;
use vstd::string::*;

verus! {

/// Whether a host answered the liveness check.
#[derive(Clone, Copy, Debug, PartialEq, Eq, Structural)]
pub enum Status {
    Up,
    Down,
}

/// What a `PortScanResult` holds, with its text as a sequence of characters.
pub struct HostRecord {
    pub ip_address: u32,
    pub status: Status,
    pub hostname: Option<Seq<char>>,
    pub open_tcp_ports: Seq<u16>,
}

/// A record says nothing more of a host that is down: no name, no open port.
pub open spec fn record_wf(record: HostRecord) -> bool {
    record.status == Status::Down ==> record.hostname is None && record.open_tcp_ports.len() == 0
}

/// The name recorded for a host that is up and whose lookup failed.
pub open spec fn unknown_hostname() -> Seq<char> {
    "Unknown"@
}

/// The text of an optional name.
pub open spec fn name_text(name: Option<String>) -> Option<Seq<char>> {
    match name {
        Some(n) => Some(n@),
        None => None,
    }
}

/// The result of probing one host. A value of this type always meets
/// `record_wf`: for a host that is down it holds no name and no port.
#[derive(Debug, PartialEq, Eq)]
pub struct PortScanResult {
    ip_address: u32,
    status: Status,
    hostname: Option<String>,
    open_tcp_ports: Vec<u16>,
}

impl View for PortScanResult {
    type V = HostRecord;

    closed spec fn view(&self) -> HostRecord {
        HostRecord {
            ip_address: self.ip_address,
            status: self.status,
            hostname: name_text(self.hostname),
            open_tcp_ports: self.open_tcp_ports@,
        }
    }
}

impl PortScanResult {
    #[verifier::type_invariant]
    spec fn inv(self) -> bool {
        record_wf(self@)
    }

    /// Makes the record of a host. For a host that is down, the name and the
    /// ports given are left out of it.
    pub fn new(ip_address: u32, status: Status, hostname: Option<String>, open_tcp_ports: Vec<u16>)
        -> (r: Self)
        ensures
            r@.ip_address == ip_address,
            r@.status == status,
            status == Status::Up ==> r@.hostname == name_text(hostname) && r@.open_tcp_ports
                == open_tcp_ports@,
            status == Status::Down ==> r@.hostname is None && r@.open_tcp_ports.len() == 0,
            record_wf(r@),
    {
        match status {
            Status::Up => PortScanResult { ip_address, status, hostname, open_tcp_ports },
            Status::Down => PortScanResult {
                ip_address,
                status,
                hostname: None,
                open_tcp_ports: Vec::new(),
            },
        }
    }

    /// The address of the host.
    pub fn ip_address(&self) -> (a: u32)
        ensures
            a == self@.ip_address,
    {
        self.ip_address
    }

    /// Whether the host is up. For a host that is down the record holds no
    /// name and no port.
    pub fn status(&self) -> (s: Status)
        ensures
            s == self@.status,
            record_wf(self@),
            s == Status::Down ==> self@.hostname is None && self@.open_tcp_ports.len() == 0,
    {
        proof {
            use_type_invariant(self);
        }
        self.status
    }

    /// The name of the host, where one is recorded.
    pub fn hostname(&self) -> (name: Option<&str>)
        ensures
            record_wf(self@),
            match name {
                Some(n) => self@.hostname == Some(n@),
                None => self@.hostname is None,
            },
    {
        proof {
            use_type_invariant(self);
        }
        match &self.hostname {
            Some(n) => Some(n.as_str()),
            None => None,
        }
    }

    /// The ports found open, in the order in which they were tried.
    pub fn open_tcp_ports(&self) -> (ports: &Vec<u16>)
        ensures
            record_wf(self@),
            ports@ == self@.open_tcp_ports,
    {
        proof {
            use_type_invariant(self);
        }
        &self.open_tcp_ports
    }
}

/// What is to be done next for a host.
#[derive(Clone, Copy, Debug, PartialEq, Eq, Structural)]
pub enum ProbeAction {
    /// Check whether the host answers.
    Ping,
    /// Look up the name of the host.
    Lookup,
    /// Try to connect to this port of the host.
    Connect(u16),
    /// Nothing: the probe is complete.
    Finish,
}

/// What came of an action.
#[derive(Debug, PartialEq, Eq)]
pub enum ProbeEvent {
    /// The liveness check ended: the host answered, or it did not in time.
    Pinged(bool),
    /// The lookup ended, with the name it found or with none.
    Named(Option<String>),
    /// The connection attempt ended: the port accepted, or it did not in time.
    Connected(bool),
}

/// What a `ProbeEvent` says, with its text as a sequence of characters.
pub enum ProbeReply {
    Pinged(bool),
    Named(Option<Seq<char>>),
    Connected(bool),
}

impl View for ProbeEvent {
    type V = ProbeReply;

    open spec fn view(&self) -> ProbeReply {
        match *self {
            ProbeEvent::Pinged(alive) => ProbeReply::Pinged(alive),
            ProbeEvent::Named(name) => ProbeReply::Named(name_text(name)),
            ProbeEvent::Connected(open) => ProbeReply::Connected(open),
        }
    }
}

/// How far the probe of a host has come.
#[derive(Clone, Copy, Debug, PartialEq, Eq, Structural)]
pub enum ProbePhase {
    /// The liveness check is pending.
    Liveness,
    /// The host is up and the lookup of its name is pending.
    Name,
    /// The host is up and the port at this index of the list is pending.
    Port(usize),
    /// Nothing is pending.
    Finished,
}

/// The state of the probe of one host.
pub struct ProbeState {
    pub ip_address: u32,
    pub ports: Seq<u16>,
    pub phase: ProbePhase,
    pub status: Status,
    pub hostname: Option<Seq<char>>,
    pub open_tcp_ports: Seq<u16>,
}

/// The state before anything is known of the host.
pub open spec fn initial_state(ip_address: u32, ports: Seq<u16>) -> ProbeState {
    ProbeState {
        ip_address,
        ports,
        phase: ProbePhase::Liveness,
        status: Status::Down,
        hostname: None,
        open_tcp_ports: Seq::empty(),
    }
}

/// The phase in which the port at `index` is pending, or the last phase where
/// the list has no such port.
pub open spec fn port_phase(ports: Seq<u16>, index: int) -> ProbePhase {
    if 0 <= index < ports.len() && index <= usize::MAX {
        ProbePhase::Port(index as usize)
    } else {
        ProbePhase::Finished
    }
}

/// What a state records of the host.
pub open spec fn record_of(state: ProbeState) -> HostRecord {
    HostRecord {
        ip_address: state.ip_address,
        status: state.status,
        hostname: state.hostname,
        open_tcp_ports: state.open_tcp_ports,
    }
}

/// What holds of every state that a probe goes through: until the host has
/// answered nothing is recorded of it, a pending port is one of the list, and
/// a host that is up has its name once the lookup is over.
pub open spec fn state_wf(state: ProbeState) -> bool {
    &&& record_wf(record_of(state))
    &&& match state.phase {
        ProbePhase::Liveness => state.status == Status::Down,
        ProbePhase::Name => state.status == Status::Up && state.hostname is None
            && state.open_tcp_ports.len() == 0,
        ProbePhase::Port(index) => state.status == Status::Up && state.hostname is Some && index
            < state.ports.len(),
        ProbePhase::Finished => state.status == Status::Up ==> state.hostname is Some,
    }
}

/// The action that a state waits for.
pub open spec fn probe_action(state: ProbeState) -> ProbeAction {
    match state.phase {
        ProbePhase::Liveness => ProbeAction::Ping,
        ProbePhase::Name => ProbeAction::Lookup,
        ProbePhase::Port(index) => ProbeAction::Connect(state.ports[index as int]),
        ProbePhase::Finished => ProbeAction::Finish,
    }
}

/// The state after an event.
///
/// A host that does not answer is down and its probe is over: no lookup, no
/// port. For a host that answers, the name is looked up; a lookup that fails
/// records the unknown name and leaves the host up. Then each port of the list
/// is tried in turn, and a port is recorded where the connection succeeded. An
/// event that does not belong to the pending action changes nothing.
pub open spec fn probe_step(state: ProbeState, reply: ProbeReply) -> ProbeState {
    match (state.phase, reply) {
        (ProbePhase::Liveness, ProbeReply::Pinged(alive)) => if alive {
            ProbeState { phase: ProbePhase::Name, status: Status::Up, ..state }
        } else {
            ProbeState { phase: ProbePhase::Finished, ..state }
        },
        (ProbePhase::Name, ProbeReply::Named(name)) => ProbeState {
            phase: port_phase(state.ports, 0),
            hostname: Some(
                match name {
                    Some(n) => n,
                    None => unknown_hostname(),
                },
            ),
            ..state
        },
        (ProbePhase::Port(index), ProbeReply::Connected(open)) => ProbeState {
            phase: port_phase(state.ports, index + 1),
            open_tcp_ports: if open {
                state.open_tcp_ports.push(state.ports[index as int])
            } else {
                state.open_tcp_ports
            },
            ..state
        },
        _ => state,
    }
}

/// The state after a sequence of events, taken in order.
pub open spec fn probe_run(state: ProbeState, replies: Seq<ProbeReply>) -> ProbeState
    decreases replies.len(),
{
    if replies.len() == 0 {
        state
    } else {
        probe_step(probe_run(state, replies.drop_last()), replies.last())
    }
}

/// The events of a port scan in which the attempt on the port at index `i`
/// ended as `connected[i]` says.
pub open spec fn port_replies(connected: Seq<bool>) -> Seq<ProbeReply> {
    Seq::new(connected.len(), |i: int| ProbeReply::Connected(connected[i]))
}

/// The ports whose connection attempt succeeded, in the order of the list:
/// `connected[i]` says how the attempt on `ports[i]` ended.
pub open spec fn open_ports(ports: Seq<u16>, connected: Seq<bool>) -> Seq<u16>
    decreases ports.len(),
{
    if ports.len() == 0 {
        Seq::<u16>::empty()
    } else {
        let before = open_ports(ports.drop_last(), connected);
        if connected[ports.len() - 1] {
            before.push(ports.last())
        } else {
            before
        }
    }
}

/// What the probe of a host records, given how each of its actions ends: of
/// a host that does not answer, nothing but that; of one that answers, the
/// name found or else the unknown name, and the ports that accepted.
pub open spec fn probe_outcome(
    ip_address: u32,
    ports: Seq<u16>,
    alive: bool,
    name: Option<Seq<char>>,
    connected: Seq<bool>,
) -> HostRecord {
    if alive {
        HostRecord {
            ip_address,
            status: Status::Up,
            hostname: Some(
                match name {
                    Some(n) => n,
                    None => unknown_hostname(),
                },
            ),
            open_tcp_ports: open_ports(ports, connected),
        }
    } else {
        HostRecord {
            ip_address,
            status: Status::Down,
            hostname: None,
            open_tcp_ports: Seq::empty(),
        }
    }
}

/// Every step keeps a well-formed state well formed.
pub proof fn lemma_step_keeps_wf(state: ProbeState, reply: ProbeReply)
    requires
        state_wf(state),
    ensures
        state_wf(probe_step(state, reply)),
{
}

/// After the first `k` connection attempts of a port scan the port at index
/// `k` is pending, and the ports recorded are those of the first `k` that
/// accepted.
pub proof fn lemma_ports_scanned(state: ProbeState, connected: Seq<bool>, k: int)
    requires
        state.phase == port_phase(state.ports, 0),
        state.open_tcp_ports.len() == 0,
        state.ports.len() <= usize::MAX,
        0 <= k <= state.ports.len(),
        connected.len() == state.ports.len(),
    ensures
        probe_run(state, port_replies(connected.take(k))) == (ProbeState {
            phase: port_phase(state.ports, k),
            open_tcp_ports: open_ports(state.ports.take(k), connected),
            ..state
        }),
    decreases k,
{
    let replies = port_replies(connected.take(k));
    if k == 0 {
        assert(state.open_tcp_ports =~= Seq::<u16>::empty());
        assert(open_ports(state.ports.take(0), connected) =~= Seq::<u16>::empty());
    } else {
        lemma_ports_scanned(state, connected, k - 1);
        assert(replies.drop_last() =~= port_replies(connected.take(k - 1)));
        assert(replies.last() == ProbeReply::Connected(connected[k - 1]));
        assert(state.ports.take(k).drop_last() =~= state.ports.take(k - 1));
        assert(state.ports.take(k).last() == state.ports[k - 1]);
    }
}

/// A whole probe records what `probe_outcome` says. A host that does not
/// answer is done after the liveness check, and nothing more is asked for. For
/// a host that answers, the lookup and then one attempt for each port of the
/// list, in order, end the probe.
pub proof fn lemma_probe_outcome(
    ip_address: u32,
    ports: Seq<u16>,
    alive: bool,
    name: Option<Seq<char>>,
    connected: Seq<bool>,
)
    requires
        ports.len() <= usize::MAX,
        connected.len() == ports.len(),
    ensures
        ({
            let pinged = probe_step(initial_state(ip_address, ports), ProbeReply::Pinged(alive));
            let named = probe_step(pinged, ProbeReply::Named(name));
            let scanned = probe_run(named, port_replies(connected));
            let outcome = probe_outcome(ip_address, ports, alive, name, connected);
            &&& record_wf(outcome)
            &&& !alive ==> pinged.phase is Finished && record_of(pinged) == outcome
            &&& alive ==> probe_action(pinged) == ProbeAction::Lookup
            &&& alive ==> scanned.phase is Finished && record_of(scanned) == outcome
        }),
{
    if alive {
        let pinged = probe_step(initial_state(ip_address, ports), ProbeReply::Pinged(alive));
        let named = probe_step(pinged, ProbeReply::Named(name));
        lemma_ports_scanned(named, connected, ports.len() as int);
        assert(connected.take(ports.len() as int) =~= connected);
        assert(ports.take(ports.len() as int) =~= ports);
    }
}

/// The probe of one host: it says which action is pending, takes what came of
/// it, and in the end gives the record of the host. What it holds always meets
/// `state_wf`.
#[derive(Debug)]
pub struct HostProbe {
    ip_address: u32,
    ports: Vec<u16>,
    phase: ProbePhase,
    status: Status,
    hostname: Option<String>,
    open_tcp_ports: Vec<u16>,
}

impl View for HostProbe {
    type V = ProbeState;

    closed spec fn view(&self) -> ProbeState {
        ProbeState {
            ip_address: self.ip_address,
            ports: self.ports@,
            phase: self.phase,
            status: self.status,
            hostname: name_text(self.hostname),
            open_tcp_ports: self.open_tcp_ports@,
        }
    }
}

impl HostProbe {
    #[verifier::type_invariant]
    spec fn inv(self) -> bool {
        state_wf(self@)
    }

    /// Starts the probe of the host at `ip_address`, with the ports to try.
    pub fn new(ip_address: u32, ports: Vec<u16>) -> (probe: Self)
        ensures
            probe@ == initial_state(ip_address, ports@),
            state_wf(probe@),
    {
        HostProbe {
            ip_address,
            ports,
            phase: ProbePhase::Liveness,
            status: Status::Down,
            hostname: None,
            open_tcp_ports: Vec::new(),
        }
    }

    /// The address of the host.
    pub fn ip_address(&self) -> (a: u32)
        ensures
            a == self@.ip_address,
    {
        self.ip_address
    }

    /// The action that is pending.
    pub fn action(&self) -> (a: ProbeAction)
        ensures
            a == probe_action(self@),
            state_wf(self@),
    {
        proof {
            use_type_invariant(self);
        }
        match self.phase {
            ProbePhase::Liveness => ProbeAction::Ping,
            ProbePhase::Name => ProbeAction::Lookup,
            ProbePhase::Port(index) => ProbeAction::Connect(self.ports[index]),
            ProbePhase::Finished => ProbeAction::Finish,
        }
    }

    /// Takes what came of an action and moves on.
    pub fn step(self, event: ProbeEvent) -> (next: Self)
        ensures
            next@ == probe_step(self@, event@),
            state_wf(self@),
            state_wf(next@),
    {
        proof {
            use_type_invariant(&self);
        }
        let HostProbe { ip_address, ports, phase, status, hostname, open_tcp_ports } = self;
        let mut open_tcp_ports = open_tcp_ports;
        let ghost before = self@;
        match (phase, event) {
            (ProbePhase::Liveness, ProbeEvent::Pinged(alive)) => {
                if alive {
                    assert(before.hostname is None && before.open_tcp_ports =~= Seq::empty());
                    HostProbe {
                        ip_address,
                        ports,
                        phase: ProbePhase::Name,
                        status: Status::Up,
                        hostname: None,
                        open_tcp_ports: Vec::new(),
                    }
                } else {
                    HostProbe {
                        ip_address,
                        ports,
                        phase: ProbePhase::Finished,
                        status,
                        hostname,
                        open_tcp_ports,
                    }
                }
            },
            (ProbePhase::Name, ProbeEvent::Named(name)) => {
                let found = match name {
                    Some(n) => n,
                    None => "Unknown".to_owned(),
                };
                let phase = if ports.len() > 0 {
                    ProbePhase::Port(0)
                } else {
                    ProbePhase::Finished
                };
                HostProbe { ip_address, ports, phase, status, hostname: Some(found), open_tcp_ports }
            },
            (ProbePhase::Port(index), ProbeEvent::Connected(open)) => {
                if open {
                    open_tcp_ports.push(ports[index]);
                }
                let count = ports.len();
                let phase = if index + 1 < count {
                    ProbePhase::Port(index + 1)
                } else {
                    ProbePhase::Finished
                };
                HostProbe { ip_address, ports, phase, status, hostname, open_tcp_ports }
            },
            (phase, _) => HostProbe { ip_address, ports, phase, status, hostname, open_tcp_ports },
        }
    }

    /// The record of the host, once nothing is pending; `None` before that.
    pub fn finish(self) -> (r: Option<PortScanResult>)
        ensures
            match r {
                Some(result) => self@.phase is Finished && result@ == record_of(self@),
                None => !(self@.phase is Finished),
            },
    {
        proof {
            use_type_invariant(&self);
        }
        match self.phase {
            ProbePhase::Finished => Some(
                PortScanResult {
                    ip_address: self.ip_address,
                    status: self.status,
                    hostname: self.hostname,
                    open_tcp_ports: self.open_tcp_ports,
                },
            ),
            _ => None,
        }
    }
}

} // verus!
