use vstd::prelude::*;

use std::collections::HashMap;
use vstd::std_specs::iter::IteratorSpec;

verus! {

broadcast use vstd::std_specs::hash::group_hash_axioms;

/// What a file descriptor of the monitor is.
#[derive(Debug, Clone, Copy, PartialEq, Eq, Structural)]
pub enum AppFdKind {
    Device,
    Server,
    Client,
    INotify,
}

/// What a readable file descriptor is to be served as.
#[derive(Debug, Clone, Copy, PartialEq, Eq, Structural)]
pub enum AppFd {
    Device,
    Server,
    INotify,
}

/// What the poll result of a file descriptor asks for.
#[derive(Debug, Clone, Copy, PartialEq, Eq, Structural)]
pub enum Op {
    /// The descriptor is readable.
    Success,
    /// The descriptor hung up, failed or is invalid.
    Failure,
    /// Nothing to do.
    Skip,
}

/// Why the event loop cannot go on.
#[derive(Debug, Clone, Copy, PartialEq, Eq, Structural)]
pub enum StateError {
    /// A file descriptor that the monitor does not know.
    UnknownFd(i32),
    /// The listening socket failed, with these poll flags.
    ServerDied(u16),
    /// The inotify descriptor failed, with these poll flags.
    INotifyDied(u16),
}

/// The bits of rustix's `PollFlags::IN` (Linux's `POLLIN`).
pub open spec fn poll_in_bits() -> u16 {
    0x1
}

/// The bits of rustix's `PollFlags::ERR` (Linux's `POLLERR`).
pub open spec fn poll_err_bits() -> u16 {
    0x8
}

/// The bits of rustix's `PollFlags::HUP` (Linux's `POLLHUP`).
pub open spec fn poll_hup_bits() -> u16 {
    0x10
}

/// The bits of rustix's `PollFlags::NVAL` (Linux's `POLLNVAL`).
pub open spec fn poll_nval_bits() -> u16 {
    0x20
}

/// Reads `rustix::event::PollFlags::IN.bits()`, which rustix defines as
/// `linux_raw_sys::general::POLLIN as u16`, that is 1.
#[verifier::external_body]
fn poll_in() -> (bits: u16)
    ensures
        bits == poll_in_bits(),
{
    rustix::event::PollFlags::IN.bits()
}

/// Reads `rustix::event::PollFlags::ERR.bits()`, which rustix defines as
/// `linux_raw_sys::general::POLLERR as u16`, that is 8.
#[verifier::external_body]
fn poll_err() -> (bits: u16)
    ensures
        bits == poll_err_bits(),
{
    rustix::event::PollFlags::ERR.bits()
}

/// Reads `rustix::event::PollFlags::HUP.bits()`, which rustix defines as
/// `linux_raw_sys::general::POLLHUP as u16`, that is 16.
#[verifier::external_body]
fn poll_hup() -> (bits: u16)
    ensures
        bits == poll_hup_bits(),
{
    rustix::event::PollFlags::HUP.bits()
}

/// Reads `rustix::event::PollFlags::NVAL.bits()`, which rustix defines as
/// `linux_raw_sys::general::POLLNVAL as u16`, that is 32.
#[verifier::external_body]
fn poll_nval() -> (bits: u16)
    ensures
        bits == poll_nval_bits(),
{
    rustix::event::PollFlags::NVAL.bits()
}

/// What the returned poll flags `revents` ask for: a hang-up, error or invalid
/// descriptor is a failure; otherwise readable input is a success; otherwise
/// there is nothing to do.
pub open spec fn spec_op(revents: u16) -> Op {
    if revents & (poll_hup_bits() | poll_err_bits() | poll_nval_bits()) != 0 {
        Op::Failure
    } else if revents & poll_in_bits() == poll_in_bits() {
        Op::Success
    } else {
        Op::Skip
    }
}

impl Op {
    /// What the returned poll flags `revents` ask for.
    pub fn from_revents(revents: u16) -> (op: Op)
        ensures
            op == spec_op(revents),
    {
        let failure = poll_hup() | poll_err() | poll_nval();
        if revents & failure != 0 {
            Op::Failure
        } else if revents & poll_in() == poll_in() {
            Op::Success
        } else {
            Op::Skip
        }
    }
}

/// The monitor's registry: the keyboards and clients it serves, by file
/// descriptor, and the descriptors of its listening socket and of its inotify
/// watch.
pub struct State<D, C> {
    devices: HashMap<i32, D>,
    server_fd: i32,
    clients: HashMap<i32, C>,
    inotify_fd: i32,
}

/// A registry as the contracts see it.
pub ghost struct StateView<D, C> {
    pub devices: Map<i32, D>,
    pub server_fd: i32,
    pub clients: Map<i32, C>,
    pub inotify_fd: i32,
}

impl<D, C> View for State<D, C> {
    type V = StateView<D, C>;

    closed spec fn view(&self) -> StateView<D, C> {
        StateView {
            devices: self.devices@,
            server_fd: self.server_fd,
            clients: self.clients@,
            inotify_fd: self.inotify_fd,
        }
    }
}

/// What a file descriptor is: the socket, the inotify watch, a keyboard or a
/// client, checked in this order.
pub open spec fn spec_fd_kind<D, C>(s: StateView<D, C>, fd: i32) -> Result<AppFdKind, StateError> {
    if s.server_fd == fd {
        Ok(AppFdKind::Server)
    } else if s.inotify_fd == fd {
        Ok(AppFdKind::INotify)
    } else if s.devices.contains_key(fd) {
        Ok(AppFdKind::Device)
    } else if s.clients.contains_key(fd) {
        Ok(AppFdKind::Client)
    } else {
        Err(StateError::UnknownFd(fd))
    }
}

/// What a readable file descriptor is served as: a keyboard, the socket or
/// the inotify watch, checked in this order.
pub open spec fn spec_fd_target<D, C>(s: StateView<D, C>, fd: i32) -> Result<AppFd, StateError> {
    if s.devices.contains_key(fd) {
        Ok(AppFd::Device)
    } else if s.server_fd == fd {
        Ok(AppFd::Server)
    } else if s.inotify_fd == fd {
        Ok(AppFd::INotify)
    } else {
        Err(StateError::UnknownFd(fd))
    }
}

/// `targets` lists the descriptors of a poll round: the keyboards', each once,
/// then the socket's and the inotify watch's.
pub open spec fn spec_poll_targets<D, C>(s: StateView<D, C>, targets: Seq<i32>) -> bool {
    let n = targets.len() - 2;
    &&& targets.len() == s.devices.dom().len() + 2
    &&& targets.subrange(0, n).no_duplicates()
    &&& targets.subrange(0, n).to_set() == s.devices.dom()
    &&& targets[n] == s.server_fd
    &&& targets[n + 1] == s.inotify_fd
}

/// The descriptors of a list of poll results, in order.
pub open spec fn polled_fds(polled: Seq<(i32, u16)>) -> Seq<i32> {
    polled.map_values(|p: (i32, u16)| p.0)
}

/// Whether poll results come from the poll targets of the registry `s`: each
/// descriptor at most once, and each that of a keyboard, the socket or the
/// inotify watch.
pub open spec fn from_poll_targets<D, C>(s: StateView<D, C>, polled: Seq<(i32, u16)>) -> bool {
    &&& polled_fds(polled).no_duplicates()
    &&& forall|i: int|
        0 <= i < polled.len() ==> (s.devices.contains_key(#[trigger] polled[i].0) || polled[i].0
            == s.server_fd || polled[i].0 == s.inotify_fd)
}

/// The registry without the keyboard `fd`.
pub open spec fn without_device<D, C>(s: StateView<D, C>, fd: i32) -> StateView<D, C> {
    StateView { devices: s.devices.remove(fd), ..s }
}

/// The registry without the client `fd`.
pub open spec fn without_client<D, C>(s: StateView<D, C>, fd: i32) -> StateView<D, C> {
    StateView { clients: s.clients.remove(fd), ..s }
}

/// One poll result handled: the registry after it, and the descriptor to
/// serve, nothing, or the error that stops the loop.
pub open spec fn poll_step<D, C>(s: StateView<D, C>, fd: i32, revents: u16) -> (
    StateView<D, C>,
    Result<Option<i32>, StateError>,
) {
    match spec_fd_kind(s, fd) {
        Err(e) => (s, Err(e)),
        Ok(kind) => match spec_op(revents) {
            Op::Success => (s, Ok(Some(fd))),
            Op::Skip => (s, Ok(None)),
            Op::Failure => match kind {
                AppFdKind::Device => (without_device(s, fd), Ok(None)),
                AppFdKind::Client => (without_client(s, fd), Ok(None)),
                AppFdKind::Server => (s, Err(StateError::ServerDied(revents))),
                AppFdKind::INotify => (s, Err(StateError::INotifyDied(revents))),
            },
        },
    }
}

/// The poll results `polled` handled in order, stopping at the first error:
/// the registry after them, and the descriptors to serve or the error.
pub open spec fn poll_all<D, C>(s: StateView<D, C>, polled: Seq<(i32, u16)>) -> (
    StateView<D, C>,
    Result<Seq<i32>, StateError>,
)
    decreases polled.len(),
{
    if polled.len() == 0 {
        (s, Ok(Seq::empty()))
    } else {
        let (s1, r1) = poll_all(s, polled.drop_last());
        match r1 {
            Err(e) => (s1, Err(e)),
            Ok(fds) => {
                let (s2, r2) = poll_step(s1, polled.last().0, polled.last().1);
                match r2 {
                    Err(e) => (s2, Err(e)),
                    Ok(Some(fd)) => (s2, Ok(fds.push(fd))),
                    Ok(None) => (s2, Ok(fds)),
                }
            },
        }
    }
}

impl<D, C> State<D, C> {
    /// A registry of the keyboards `devices`, with no client yet.
    pub fn new(devices: HashMap<i32, D>, server_fd: i32, inotify_fd: i32) -> (s: Self)
        ensures
            s@ == (StateView {
                devices: devices@,
                server_fd,
                clients: Map::<i32, C>::empty(),
                inotify_fd,
            }),
    {
        Self { devices, server_fd, clients: HashMap::new(), inotify_fd }
    }

    /// The keyboards, by file descriptor.
    pub fn devices(&self) -> (m: &HashMap<i32, D>)
        ensures
            m@ == self@.devices,
    {
        &self.devices
    }

    /// The clients, by file descriptor.
    pub fn clients(&self) -> (m: &HashMap<i32, C>)
        ensures
            m@ == self@.clients,
    {
        &self.clients
    }

    /// The descriptor of the listening socket.
    pub fn server_fd(&self) -> (fd: i32)
        ensures
            fd == self@.server_fd,
    {
        self.server_fd
    }

    /// The descriptor of the inotify watch.
    pub fn inotify_fd(&self) -> (fd: i32)
        ensures
            fd == self@.inotify_fd,
    {
        self.inotify_fd
    }

    /// The descriptors to poll: every keyboard's, then the socket's, then the
    /// inotify watch's. Clients are not polled.
    pub fn poll_targets(&self) -> (targets: Vec<i32>)
        ensures
            spec_poll_targets(self@, targets@),
    {
        let mut targets: Vec<i32> = Vec::new();
        let ghost keys = vstd::std_specs::hash::spec_keys_iter(&self.devices).remaining().unref();
        for fd in it: self.devices.keys()
            invariant
                targets.len() == it.index(),
                it.seq().unref() == keys,
                forall|i: int| 0 <= i < targets.len() ==> targets@[i] == keys[i],
        {
            targets.push(*fd);
        }
        proof {
            let rem = vstd::std_specs::hash::spec_keys_iter(&self.devices).remaining();
            vstd::std_specs::hash::axiom_spec_keys_iter(&self.devices);
            assert(targets@ =~= keys);
            assert(keys.no_duplicates()) by {
                assert forall|i: int, j: int|
                    0 <= i < keys.len() && 0 <= j < keys.len() && i != j implies keys[i]
                    != keys[j] by {
                    assert(keys[i] == *rem[i] && keys[j] == *rem[j]);
                }
            }
        }
        let ghost devices_part = targets@;
        targets.push(self.server_fd);
        targets.push(self.inotify_fd);
        assert(targets@.subrange(0, targets.len() - 2) =~= devices_part);
        targets
    }

    /// What the file descriptor `fd` is.
    pub fn classify_fd_kind(&self, fd: i32) -> (r: Result<AppFdKind, StateError>)
        ensures
            r == spec_fd_kind(self@, fd),
    {
        if self.server_fd == fd {
            Ok(AppFdKind::Server)
        } else if self.inotify_fd == fd {
            Ok(AppFdKind::INotify)
        } else if self.devices.contains_key(&fd) {
            Ok(AppFdKind::Device)
        } else if self.clients.contains_key(&fd) {
            Ok(AppFdKind::Client)
        } else {
            Err(StateError::UnknownFd(fd))
        }
    }

    /// What the readable file descriptor `fd` is to be served as.
    pub fn classify_fd(&self, fd: i32) -> (r: Result<AppFd, StateError>)
        ensures
            r == spec_fd_target(self@, fd),
    {
        if self.devices.contains_key(&fd) {
            Ok(AppFd::Device)
        } else if self.server_fd == fd {
            Ok(AppFd::Server)
        } else if self.inotify_fd == fd {
            Ok(AppFd::INotify)
        } else {
            Err(StateError::UnknownFd(fd))
        }
    }

    /// Forgets the keyboard `fd`.
    pub fn remove_device_by_fd(&mut self, fd: i32)
        ensures
            final(self)@ == without_device(old(self)@, fd),
    {
        self.devices.remove(&fd);
    }

    /// Takes the keyboard `fd` out of the registry, to be served and then put
    /// back with `restore_device`.
    pub fn take_device(&mut self, fd: i32) -> (d: Option<D>)
        ensures
            final(self)@ == without_device(old(self)@, fd),
            match d {
                Some(dev) => old(self)@.devices.contains_key(fd) && dev == old(self)@.devices[fd],
                None => !old(self)@.devices.contains_key(fd),
            },
    {
        self.devices.remove(&fd)
    }

    /// Registers the keyboard `device` under `fd`.
    pub fn restore_device(&mut self, fd: i32, device: D)
        ensures
            final(self)@ == (StateView { devices: old(self)@.devices.insert(fd, device), ..old(self)@ }),
    {
        self.devices.insert(fd, device);
    }

    /// Registers a newly accepted client under `fd` once it has been sent the
    /// current lock state: when sending that greeting failed (`greeted` is an
    /// error), the client is not registered and is dropped.
    pub fn add_client<E>(&mut self, fd: i32, client: C, greeted: Result<(), E>)
        ensures
            greeted is Ok ==> final(self)@ == (StateView {
                clients: old(self)@.clients.insert(fd, client),
                ..old(self)@
            }),
            greeted is Err ==> final(self)@ == old(self)@,
    {
        if greeted.is_ok() {
            self.clients.insert(fd, client);
        }
    }

    /// Forgets the clients in `fds`, those that a broadcast could not reach.
    pub fn drop_clients(&mut self, fds: &Vec<i32>)
        ensures
            final(self)@ == (StateView {
                clients: old(self)@.clients.remove_keys(fds@.to_set()),
                ..old(self)@
            }),
    {
        let mut i: usize = 0;
        proof {
            assert(fds@.subrange(0, 0).to_set() =~= Set::<i32>::empty());
            assert(self@.clients.remove_keys(Set::<i32>::empty()) =~= self@.clients);
        }
        while i < fds.len()
            invariant
                0 <= i <= fds.len(),
                self@ == (StateView {
                    clients: old(self)@.clients.remove_keys(fds@.subrange(0, i as int).to_set()),
                    ..old(self)@
                }),
            decreases fds.len() - i,
        {
            let fd = fds[i];
            self.clients.remove(&fd);
            proof {
                let sb = fds@.subrange(0, i as int);
                let sa = fds@.subrange(0, i + 1);
                let before = sb.to_set();
                let after = sa.to_set();
                assert(after =~= before.insert(fd)) by {
                    assert forall|x: i32| after.contains(x) implies before.insert(fd).contains(x) by {
                        let j = choose|j: int| 0 <= j < sa.len() && #[trigger] sa[j] == x;
                        if j < i {
                            assert(sb[j] == x);
                        }
                    }
                    assert forall|x: i32| before.insert(fd).contains(x) implies after.contains(x) by {
                        if x == fd {
                            assert(sa[i as int] == fd);
                        } else {
                            let j = choose|j: int| 0 <= j < sb.len() && #[trigger] sb[j] == x;
                            assert(sa[j] == x);
                        }
                    }
                }
                assert(self@.clients =~= old(self)@.clients.remove_keys(after));
            }
            i = i + 1;
        }
        assert(fds@.subrange(0, fds.len() as int) =~= fds@);
    }

    /// Replaces the keyboards with `devices`, after the device list changed.
    pub fn update_devices(&mut self, devices: HashMap<i32, D>)
        ensures
            final(self)@ == (StateView { devices: devices@, ..old(self)@ }),
    {
        self.devices = devices;
    }

    /// Handles one poll result: forgets a failed keyboard or client, and says
    /// whether `fd` is to be served.
    fn poll_one(&mut self, fd: i32, revents: u16) -> (r: Result<Option<i32>, StateError>)
        ensures
            (final(self)@, r) == poll_step(old(self)@, fd, revents),
    {
        let op = Op::from_revents(revents);
        let kind = match self.classify_fd_kind(fd) {
            Ok(kind) => kind,
            Err(e) => return Err(e),
        };
        match op {
            Op::Success => Ok(Some(fd)),
            Op::Skip => Ok(None),
            Op::Failure => match kind {
                AppFdKind::Device => {
                    self.devices.remove(&fd);
                    Ok(None)
                },
                AppFdKind::Client => {
                    self.clients.remove(&fd);
                    Ok(None)
                },
                AppFdKind::Server => Err(StateError::ServerDied(revents)),
                AppFdKind::INotify => Err(StateError::INotifyDied(revents)),
            },
        }
    }

    /// Handles the results of a poll, `(descriptor, returned flags)` in order:
    /// answers the descriptors that are readable, forgetting on the way the
    /// keyboards and clients that failed. Stops at an unknown descriptor or a
    /// failed socket or inotify watch, with what was forgotten until then.
    pub fn poll_readable(&mut self, polled: &Vec<(i32, u16)>) -> (r: Result<Vec<i32>, StateError>)
        ensures
            final(self)@ == poll_all(old(self)@, polled@).0,
            match r {
                Ok(fds) => poll_all(old(self)@, polled@).1 == Ok::<Seq<i32>, StateError>(fds@),
                Err(e) => poll_all(old(self)@, polled@).1 == Err::<Seq<i32>, StateError>(e),
            },
            from_poll_targets(old(self)@, polled@) ==> (r matches Ok(fds) ==> {
                &&& fds@.no_duplicates()
                &&& forall|j: int|
                    0 <= j < fds.len() ==> (#[trigger] spec_fd_target(final(self)@, fds@[j])) is Ok
            }),
    {
        proof {
            if from_poll_targets(self@, polled@) {
                lemma_poll_serves_targets(self@, polled@);
            }
        }
        let mut fds: Vec<i32> = Vec::new();
        let mut i: usize = 0;
        while i < polled.len()
            invariant
                0 <= i <= polled.len(),
                (self@, Ok::<Seq<i32>, StateError>(fds@)) == poll_all(
                    old(self)@,
                    polled@.subrange(0, i as int),
                ),
            decreases polled.len() - i,
        {
            let (fd, revents) = polled[i];
            proof {
                assert(polled@.subrange(0, i + 1).drop_last() =~= polled@.subrange(0, i as int));
            }
            match self.poll_one(fd, revents) {
                Ok(Some(ready)) => fds.push(ready),
                Ok(None) => {},
                Err(e) => {
                    proof {
                        lemma_poll_all_stops(old(self)@, polled@, (i + 1) as int);
                    }
                    return Err(e);
                },
            }
            i = i + 1;
        }
        assert(polled@.subrange(0, polled.len() as int) =~= polled@);
        Ok(fds)
    }
}

/// Once handling poll results has failed, later results change nothing.
proof fn lemma_poll_all_stops<D, C>(s: StateView<D, C>, polled: Seq<(i32, u16)>, n: int)
    requires
        0 < n <= polled.len(),
        poll_all(s, polled.subrange(0, n)).1 is Err,
    ensures
        poll_all(s, polled) == poll_all(s, polled.subrange(0, n)),
    decreases polled.len() - n,
{
    if n < polled.len() {
        assert(polled.subrange(0, n + 1).drop_last() =~= polled.subrange(0, n));
        lemma_poll_all_stops(s, polled, n + 1);
    } else {
        assert(polled.subrange(0, n) =~= polled);
    }
}

/// Law: the poll loop serves only descriptors whose poll reported readable input
/// and no failure.
pub proof fn lemma_poll_serves_only_readable<D, C>(s: StateView<D, C>, polled: Seq<(i32, u16)>)
    ensures
        poll_all(s, polled).1 matches Ok(fds) ==> forall|j: int|
            #![trigger fds[j]]
            0 <= j < fds.len() ==> exists|i: int|
                0 <= i < polled.len() && (#[trigger] polled[i]).0 == fds[j] && spec_op(polled[i].1)
                    == Op::Success,
    decreases polled.len(),
{
    if polled.len() > 0 {
        let prefix = polled.drop_last();
        lemma_poll_serves_only_readable(s, prefix);
        let (s1, r1) = poll_all(s, prefix);
        if let Ok(fds0) = r1 {
            if let Ok(fds) = poll_all(s, polled).1 {
                assert forall|j: int| #![trigger fds[j]] 0 <= j < fds.len() implies exists|i: int|
                    0 <= i < polled.len() && (#[trigger] polled[i]).0 == fds[j] && spec_op(
                        polled[i].1,
                    ) == Op::Success by {
                    if j < fds0.len() {
                        let i = choose|i: int|
                            0 <= i < prefix.len() && (#[trigger] prefix[i]).0 == fds0[j] && spec_op(
                                prefix[i].1,
                            ) == Op::Success;
                        assert(polled[i] == prefix[i]);
                    } else {
                        assert(polled[polled.len() - 1] == polled.last());
                    }
                }
            }
        }
    }
}

/// Law: handling poll results only ever forgets keyboards and clients; it
/// never adds one, never changes one, and keeps the socket and inotify watch.
pub proof fn lemma_poll_only_forgets<D, C>(s: StateView<D, C>, polled: Seq<(i32, u16)>)
    ensures
        poll_all(s, polled).0.devices.submap_of(s.devices),
        poll_all(s, polled).0.clients.submap_of(s.clients),
        poll_all(s, polled).0.server_fd == s.server_fd,
        poll_all(s, polled).0.inotify_fd == s.inotify_fd,
    decreases polled.len(),
{
    if polled.len() > 0 {
        lemma_poll_only_forgets(s, polled.drop_last());
        let s1 = poll_all(s, polled.drop_last()).0;
        let s2 = poll_all(s, polled).0;
        assert(s2.clients.submap_of(s1.clients));
        assert(s2.devices.submap_of(s1.devices));
        assert forall|k: i32| #[trigger] s2.clients.contains_key(k) implies s.clients.contains_key(k)
            && s2.clients[k] == s.clients[k] by {
            assert(s1.clients.contains_key(k));
        }
        assert forall|k: i32| #[trigger] s2.devices.contains_key(k) implies s.devices.contains_key(k)
            && s2.devices[k] == s.devices[k] by {
            assert(s1.devices.contains_key(k));
        }
    }
}

/// Law: when the poll loop completes, a keyboard whose poll reported a failure
/// is no longer registered (unless its descriptor is that of the socket or the
/// inotify watch, which are checked first).
pub proof fn lemma_failed_device_forgotten<D, C>(
    s: StateView<D, C>,
    polled: Seq<(i32, u16)>,
    i: int,
)
    requires
        0 <= i < polled.len(),
        spec_op(polled[i].1) == Op::Failure,
        polled[i].0 != s.server_fd,
        polled[i].0 != s.inotify_fd,
        s.devices.contains_key(polled[i].0),
        poll_all(s, polled).1 is Ok,
    ensures
        !poll_all(s, polled).0.devices.contains_key(polled[i].0),
    decreases polled.len(),
{
    let prefix = polled.drop_last();
    let fd = polled[i].0;
    if i < polled.len() - 1 {
        assert(prefix[i] == polled[i]);
        lemma_failed_device_forgotten(s, prefix, i);
        lemma_poll_only_forgets(s, prefix);
        lemma_poll_only_forgets(poll_all(s, prefix).0, seq![polled.last()]);
        assert(seq![polled.last()].drop_last() =~= Seq::<(i32, u16)>::empty());
    } else {
        lemma_poll_only_forgets(s, prefix);
        let s1 = poll_all(s, prefix).0;
        assert(polled.last() == polled[i]);
        if s1.devices.contains_key(fd) {
            assert(spec_fd_kind(s1, fd) == Ok::<AppFdKind, StateError>(AppFdKind::Device));
        }
    }
}

/// Law: when the poll results come from the poll targets, the descriptors
/// served are distinct, are polled ones, and are each a keyboard still
/// registered, the socket or the inotify watch (never a client); and a keyboard
/// that was not polled stays registered.
pub proof fn lemma_poll_serves_targets<D, C>(s: StateView<D, C>, polled: Seq<(i32, u16)>)
    requires
        from_poll_targets(s, polled),
    ensures
        forall|x: i32|
            #![trigger poll_all(s, polled).0.devices.contains_key(x)]
            s.devices.contains_key(x) && !polled_fds(polled).contains(x) ==> poll_all(
                s,
                polled,
            ).0.devices.contains_key(x),
        poll_all(s, polled).1 matches Ok(fds) ==> {
            &&& fds.no_duplicates()
            &&& forall|j: int|
                #![trigger fds[j]]
                0 <= j < fds.len() ==> polled_fds(polled).contains(fds[j]) && spec_fd_target(
                    poll_all(s, polled).0,
                    fds[j],
                ) is Ok
        },
    decreases polled.len(),
{
    if polled.len() > 0 {
        let prefix = polled.drop_last();
        let pf = polled_fds(polled);
        let qf = polled_fds(prefix);
        assert(qf =~= pf.drop_last());
        assert(from_poll_targets(s, prefix)) by {
            assert forall|i: int| 0 <= i < prefix.len() implies (s.devices.contains_key(
                #[trigger] prefix[i].0,
            ) || prefix[i].0 == s.server_fd || prefix[i].0 == s.inotify_fd) by {
                assert(prefix[i] == polled[i]);
            }
        }
        lemma_poll_serves_targets(s, prefix);
        lemma_poll_only_forgets(s, prefix);
        let s1 = poll_all(s, prefix).0;
        let r1 = poll_all(s, prefix).1;
        let s2 = poll_all(s, polled).0;
        let fd = polled.last().0;
        assert(pf[pf.len() - 1] == fd);
        assert(pf.contains(fd));
        assert(!qf.contains(fd)) by {
            if qf.contains(fd) {
                let i = choose|i: int| 0 <= i < qf.len() && qf[i] == fd;
                assert(pf[i] == fd);
            }
        }
        assert(polled[polled.len() - 1] == polled.last());
        if s.devices.contains_key(fd) {
            assert(s1.devices.contains_key(fd));
        }
        assert forall|x: i32|
            #![trigger s2.devices.contains_key(x)]
            s.devices.contains_key(x) && !pf.contains(x) implies s2.devices.contains_key(x) by {
            if qf.contains(x) {
                let i = choose|i: int| 0 <= i < qf.len() && qf[i] == x;
                assert(pf[i] == x);
            }
            assert(s1.devices.contains_key(x));
            assert(x != fd);
        }
        if let Ok(fds) = poll_all(s, polled).1 {
            if let Ok(fds0) = r1 {
                assert forall|j: int| #![trigger fds0[j]] 0 <= j < fds0.len() implies fds0[j]
                    != fd && pf.contains(fds0[j]) && spec_fd_target(s2, fds0[j]) is Ok by {
                    assert(qf.contains(fds0[j]));
                    let i = choose|i: int| 0 <= i < qf.len() && qf[i] == fds0[j];
                    assert(pf[i] == fds0[j]);
                    assert(spec_fd_target(s1, fds0[j]) is Ok);
                }
                if fds.len() == fds0.len() + 1 {
                    assert(fds == fds0.push(fd));
                    assert(spec_fd_target(s2, fd) is Ok);
                    assert forall|j: int|
                        #![trigger fds[j]]
                        0 <= j < fds.len() implies pf.contains(fds[j]) && spec_fd_target(
                            s2,
                            fds[j],
                        ) is Ok by {
                        if j < fds0.len() {
                            assert(fds[j] == fds0[j]);
                        }
                    }
                    assert(fds.no_duplicates()) by {
                        assert forall|i: int, j: int|
                            0 <= i < fds.len() && 0 <= j < fds.len() && i != j implies fds[i]
                            != fds[j] by {
                            if i < fds0.len() && j < fds0.len() {
                                assert(fds[i] == fds0[i] && fds[j] == fds0[j]);
                            } else if i < fds0.len() {
                                assert(fds[i] == fds0[i]);
                            } else if j < fds0.len() {
                                assert(fds[j] == fds0[j]);
                            }
                        }
                    }
                } else {
                    assert(fds == fds0);
                }
            }
        }
    }
}

/// Law: polling exactly the poll targets, once each, gives poll results that
/// come from the poll targets, whenever the socket, the inotify watch and the
/// keyboards have distinct descriptors.
pub proof fn lemma_poll_targets_feed_poll<D, C>(
    s: StateView<D, C>,
    targets: Seq<i32>,
    polled: Seq<(i32, u16)>,
)
    requires
        spec_poll_targets(s, targets),
        polled_fds(polled) == targets,
        s.server_fd != s.inotify_fd,
        !s.devices.contains_key(s.server_fd),
        !s.devices.contains_key(s.inotify_fd),
    ensures
        from_poll_targets(s, polled),
{
    let n = targets.len() - 2;
    let devs = targets.subrange(0, n);
    assert forall|i: int| 0 <= i < polled.len() implies (s.devices.contains_key(
        #[trigger] polled[i].0,
    ) || polled[i].0 == s.server_fd || polled[i].0 == s.inotify_fd) by {
        assert(polled_fds(polled)[i] == polled[i].0);
        if i < n {
            assert(devs[i] == targets[i]);
            assert(devs.to_set().contains(targets[i]));
        }
    }
    assert(targets.no_duplicates()) by {
        assert forall|i: int, j: int|
            0 <= i < targets.len() && 0 <= j < targets.len() && i != j implies targets[i]
            != targets[j] by {
            if i < n {
                assert(devs[i] == targets[i]);
                assert(devs.to_set().contains(targets[i]));
            }
            if j < n {
                assert(devs[j] == targets[j]);
                assert(devs.to_set().contains(targets[j]));
            }
        }
    }
}

/// The descriptor of a poll result, when it reports readable input and no
/// failure.
pub open spec fn readable_fd(p: (i32, u16)) -> Option<i32> {
    if spec_op(p.1) == Op::Success {
        Some(p.0)
    } else {
        None
    }
}

/// The descriptors whose poll results report a failure.
pub open spec fn failed_fds(polled: Seq<(i32, u16)>) -> Set<i32> {
    Set::new(
        |fd: i32|
            exists|i: int|
                0 <= i < polled.len() && (#[trigger] polled[i]).0 == fd && spec_op(polled[i].1)
                    == Op::Failure,
    )
}

/// Law: when the poll results come from the poll targets and the loop
/// completes, the descriptors served are exactly the readable ones, in the
/// order polled; the keyboards are the old ones without those that failed; and
/// the clients, socket and inotify watch are unchanged.
pub proof fn lemma_poll_outcome<D, C>(s: StateView<D, C>, polled: Seq<(i32, u16)>)
    requires
        from_poll_targets(s, polled),
        poll_all(s, polled).1 is Ok,
    ensures
        poll_all(s, polled).1 == Ok::<Seq<i32>, StateError>(
            polled.filter_map(|p: (i32, u16)| readable_fd(p)),
        ),
        poll_all(s, polled).0 == (StateView {
            devices: s.devices.remove_keys(failed_fds(polled)),
            ..s
        }),
    decreases polled.len(),
{
    if polled.len() == 0 {
        assert(failed_fds(polled) =~= Set::<i32>::empty());
        assert(s.devices.remove_keys(Set::<i32>::empty()) =~= s.devices);
    } else {
        let prefix = polled.drop_last();
        let pf = polled_fds(polled);
        let qf = polled_fds(prefix);
        assert(qf =~= pf.drop_last());
        assert(from_poll_targets(s, prefix)) by {
            assert forall|i: int| 0 <= i < prefix.len() implies (s.devices.contains_key(
                #[trigger] prefix[i].0,
            ) || prefix[i].0 == s.server_fd || prefix[i].0 == s.inotify_fd) by {
                assert(prefix[i] == polled[i]);
            }
        }
        lemma_poll_outcome(s, prefix);
        let s1 = poll_all(s, prefix).0;
        let fd = polled.last().0;
        let rev = polled.last().1;
        let n = polled.len() - 1;
        assert(polled[n] == polled.last());
        assert(pf[n] == fd);
        assert(!qf.contains(fd)) by {
            if qf.contains(fd) {
                let i = choose|i: int| 0 <= i < qf.len() && qf[i] == fd;
                assert(pf[i] == fd);
            }
        }
        assert(!failed_fds(prefix).contains(fd)) by {
            if failed_fds(prefix).contains(fd) {
                let i = choose|i: int|
                    0 <= i < prefix.len() && (#[trigger] prefix[i]).0 == fd && spec_op(prefix[i].1)
                        == Op::Failure;
                assert(qf[i] == fd);
            }
        }
        if spec_op(rev) == Op::Failure {
            assert(failed_fds(polled) =~= failed_fds(prefix).insert(fd)) by {
                assert forall|x: i32| failed_fds(polled).contains(x) implies failed_fds(
                    prefix,
                ).insert(fd).contains(x) by {
                    let i = choose|i: int|
                        0 <= i < polled.len() && (#[trigger] polled[i]).0 == x && spec_op(
                            polled[i].1,
                        ) == Op::Failure;
                    if i < n {
                        assert(prefix[i] == polled[i]);
                    }
                }
                assert forall|x: i32| failed_fds(prefix).insert(fd).contains(x) implies failed_fds(
                    polled,
                ).contains(x) by {
                    if x != fd {
                        let i = choose|i: int|
                            0 <= i < prefix.len() && (#[trigger] prefix[i]).0 == x && spec_op(
                                prefix[i].1,
                            ) == Op::Failure;
                        assert(polled[i] == prefix[i]);
                    } else {
                        assert(polled[n].0 == fd);
                    }
                }
            }
            if s.devices.contains_key(fd) {
                assert(s1.devices.contains_key(fd));
            }
            assert(s1.devices.remove(fd) =~= s.devices.remove_keys(failed_fds(polled)));
        } else {
            assert(failed_fds(polled) =~= failed_fds(prefix)) by {
                assert forall|x: i32| failed_fds(polled).contains(x) implies failed_fds(
                    prefix,
                ).contains(x) by {
                    let i = choose|i: int|
                        0 <= i < polled.len() && (#[trigger] polled[i]).0 == x && spec_op(
                            polled[i].1,
                        ) == Op::Failure;
                    assert(i < n);
                    assert(prefix[i] == polled[i]);
                }
                assert forall|x: i32| failed_fds(prefix).contains(x) implies failed_fds(
                    polled,
                ).contains(x) by {
                    let i = choose|i: int|
                        0 <= i < prefix.len() && (#[trigger] prefix[i]).0 == x && spec_op(
                            prefix[i].1,
                        ) == Op::Failure;
                    assert(polled[i] == prefix[i]);
                }
            }
            if spec_op(rev) == Op::Success {
                let fds0 = prefix.filter_map(|p: (i32, u16)| readable_fd(p));
                assert(fds0.push(fd) =~= fds0 + seq![fd]);
            }
        }
    }
}

} // verus!
