use std::collections::HashMap;

use kb_mod_monitor::state::{AppFd, AppFdKind, Op, State, StateError};
use rustix::event::PollFlags;

const SERVER: i32 = 3;
const INOTIFY: i32 = 4;

fn registry() -> State<&'static str, &'static str> {
    let mut devices = HashMap::new();
    devices.insert(10, "kbd-a");
    devices.insert(11, "kbd-b");
    let mut s = State::new(devices, SERVER, INOTIFY);
    s.add_client(20, "client-a", Ok::<(), ()>(()));
    s.add_client(21, "client-b", Ok::<(), ()>(()));
    s
}

#[test]
fn revents_classification() {
    assert_eq!(Op::from_revents(PollFlags::IN.bits()), Op::Success);
    assert_eq!(Op::from_revents((PollFlags::IN | PollFlags::HUP).bits()), Op::Failure);
    assert_eq!(Op::from_revents(PollFlags::ERR.bits()), Op::Failure);
    assert_eq!(Op::from_revents(PollFlags::NVAL.bits()), Op::Failure);
    assert_eq!(Op::from_revents(0), Op::Skip);
    assert_eq!(Op::from_revents(PollFlags::OUT.bits()), Op::Skip);
    assert_eq!(Op::from_revents(0x1), Op::Success);
    assert_eq!(Op::from_revents(0x10), Op::Failure);
}

#[test]
fn fd_kinds() {
    let s = registry();
    assert_eq!(s.classify_fd_kind(SERVER), Ok(AppFdKind::Server));
    assert_eq!(s.classify_fd_kind(INOTIFY), Ok(AppFdKind::INotify));
    assert_eq!(s.classify_fd_kind(10), Ok(AppFdKind::Device));
    assert_eq!(s.classify_fd_kind(21), Ok(AppFdKind::Client));
    assert_eq!(s.classify_fd_kind(99), Err(StateError::UnknownFd(99)));
}

#[test]
fn readable_fd_targets() {
    let s = registry();
    assert_eq!(s.classify_fd(11), Ok(AppFd::Device));
    assert_eq!(s.classify_fd(SERVER), Ok(AppFd::Server));
    assert_eq!(s.classify_fd(INOTIFY), Ok(AppFd::INotify));
    assert_eq!(s.classify_fd(20), Err(StateError::UnknownFd(20)));
}

#[test]
fn poll_serves_readable_and_skips_idle() {
    let mut s = registry();
    let polled = vec![(10, PollFlags::IN.bits()), (11, 0), (SERVER, PollFlags::IN.bits()), (INOTIFY, 0)];
    assert_eq!(s.poll_readable(&polled), Ok(vec![10, SERVER]));
    assert_eq!(s.devices().len(), 2);
}

#[test]
fn poll_forgets_failed_devices_and_clients() {
    let mut s = registry();
    let polled = vec![(10, PollFlags::HUP.bits()), (21, PollFlags::ERR.bits()), (11, PollFlags::IN.bits())];
    assert_eq!(s.poll_readable(&polled), Ok(vec![11]));
    assert!(!s.devices().contains_key(&10));
    assert!(s.devices().contains_key(&11));
    assert!(!s.clients().contains_key(&21));
    assert!(s.clients().contains_key(&20));
}

#[test]
fn poll_stops_when_the_server_dies() {
    let mut s = registry();
    let hup = PollFlags::HUP.bits();
    let polled = vec![(10, hup), (SERVER, hup), (11, hup)];
    assert_eq!(s.poll_readable(&polled), Err(StateError::ServerDied(hup)));
    assert!(!s.devices().contains_key(&10));
    assert!(s.devices().contains_key(&11));
}

#[test]
fn poll_stops_when_inotify_dies() {
    let mut s = registry();
    let err = PollFlags::ERR.bits();
    assert_eq!(s.poll_readable(&vec![(INOTIFY, err)]), Err(StateError::INotifyDied(err)));
}

#[test]
fn poll_stops_at_an_unknown_fd() {
    let mut s = registry();
    assert_eq!(s.poll_readable(&vec![(77, 0)]), Err(StateError::UnknownFd(77)));
}

#[test]
fn devices_can_be_removed_taken_and_restored() {
    let mut s = registry();
    s.remove_device_by_fd(10);
    assert_eq!(s.classify_fd_kind(10), Err(StateError::UnknownFd(10)));
    let dev = s.take_device(11);
    assert_eq!(dev, Some("kbd-b"));
    assert_eq!(s.take_device(11), None);
    s.restore_device(11, "kbd-b");
    assert_eq!(s.classify_fd(11), Ok(AppFd::Device));
}

#[test]
fn unreachable_clients_are_dropped() {
    let mut s = registry();
    s.drop_clients(&vec![20, 99]);
    assert!(!s.clients().contains_key(&20));
    assert!(s.clients().contains_key(&21));
    assert_eq!(s.clients().len(), 1);
}

#[test]
fn device_list_is_replaced() {
    let mut s = registry();
    let mut fresh = HashMap::new();
    fresh.insert(12, "kbd-c");
    s.update_devices(fresh);
    assert_eq!(s.classify_fd_kind(10), Err(StateError::UnknownFd(10)));
    assert_eq!(s.classify_fd_kind(12), Ok(AppFdKind::Device));
    assert_eq!(s.server_fd(), SERVER);
    assert_eq!(s.inotify_fd(), INOTIFY);
}

#[test]
fn client_whose_greeting_failed_is_not_registered() {
    let mut s = registry();
    s.add_client(22, "client-c", Err::<(), &str>("broken pipe"));
    assert_eq!(s.classify_fd_kind(22), Err(StateError::UnknownFd(22)));
    assert_eq!(s.clients().len(), 2);
    s.add_client(22, "client-c", Ok::<(), &str>(()));
    assert_eq!(s.classify_fd_kind(22), Ok(AppFdKind::Client));
}

#[test]
fn poll_targets_are_keyboards_then_socket_then_watch() {
    let s = registry();
    let targets = s.poll_targets();
    assert_eq!(targets.len(), 4);
    let mut keyboards = targets[..2].to_vec();
    keyboards.sort();
    assert_eq!(keyboards, vec![10, 11]);
    assert_eq!(&targets[2..], &[SERVER, INOTIFY]);
}

#[test]
fn polling_the_targets_serves_no_client() {
    let mut s = registry();
    let polled: Vec<(i32, u16)> = s
        .poll_targets()
        .into_iter()
        .map(|fd| (fd, PollFlags::IN.bits()))
        .collect();
    let mut served = s.poll_readable(&polled).expect("all targets known");
    served.sort();
    assert_eq!(served, vec![SERVER, INOTIFY, 10, 11]);
}
