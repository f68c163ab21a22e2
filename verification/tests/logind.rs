use dynamod::bus::BusError;
use dynamod::common::protocol::{self, DecodeError, Message, MessageBody, MessageKind};
use dynamod::logind::acpi::{
    capability_has_bit, classify, dispatch, initial_lid_time, is_wanted_device, on_external_power,
    run_action, AcpiEvent, InputEvent, EV_KEY, EV_SW, KEY_POWER, KEY_SLEEP, SW_LID,
};
use dynamod::logind::cgroup::{
    place_leader, session_scope, session_scope_relative, user_slice, PlaceStep,
};
use dynamod::logind::config::{Config, HandleAction};
use dynamod::logind::device::{
    apply_session_acl, is_drm_device, path_to_open, session_devices, DeviceError,
};
use dynamod::logind::inhibitor::create_inhibitor;
use dynamod::logind::manager::{
    self, AclStep, SessionRequest,
};
use dynamod::logind::power::{
    has_block_inhibitor, request_shutdown, request_sleep, wait_for_delay_inhibitors, Delay,
    PowerStep, ShutdownKind, SleepKind,
};
use dynamod::logind::properties;
use dynamod::logind::runtime_dir::{ensure, is_mounted, mount_options, path_for, DirStep};
use dynamod::logind::session;
use dynamod::logind::state::{LoginState, SessionState, UserState};
use dynamod::logind::svmgr_client::{command_result, request_shutdown as shutdown_message};
use dynamod::logind::{seat, teardown, user};
use dynamod::time::{Duration, Instant};
use std::path::PathBuf;

const NOW: Instant = Instant { nanos: 9_000_000_000_000_000 };

#[test]
fn capability_bitmap_parsing() {
    let word0: u64 = 0;
    let word1: u64 = 1u64 << 52;
    let word2: u64 = 1u64 << 14;
    let content = format!("{word2:x} {word1:x} {word0:x}");
    assert!(capability_has_bit(Some(&content), KEY_POWER));
    assert!(capability_has_bit(Some(&content), KEY_SLEEP));
    assert!(!capability_has_bit(Some(&content), 200));
    assert!(!capability_has_bit(None, KEY_POWER));
    assert!(is_wanted_device("event3", Some(&content), None));
    assert!(is_wanted_device("event3", None, Some("1")));
    assert!(!is_wanted_device("mouse0", Some(&content), None));
    assert!(!is_wanted_device("event3", None, None));
}

#[test]
fn classifier_recognizes_canonical_events() {
    let pwr = InputEvent { tv_sec: 0, tv_usec: 0, type_: EV_KEY, code: KEY_POWER, value: 1 };
    assert!(matches!(classify(&pwr), Some(AcpiEvent::PowerButton)));

    let lid_close = InputEvent { tv_sec: 0, tv_usec: 0, type_: EV_SW, code: SW_LID, value: 1 };
    assert!(matches!(classify(&lid_close), Some(AcpiEvent::LidClosed)));

    let pwr_release = InputEvent { tv_sec: 0, tv_usec: 0, type_: EV_KEY, code: KEY_POWER, value: 0 };
    assert!(classify(&pwr_release).is_none());
}

#[test]
fn lid_events_are_held_off() {
    let mut cfg = Config::default();
    cfg.merge("HoldoffTimeoutSec=30s\nHandleLidSwitch=suspend\n");
    let mut last = initial_lid_time(NOW);
    assert_eq!(
        dispatch(&cfg, AcpiEvent::LidClosed, false, false, &mut last, NOW),
        Some(HandleAction::Suspend)
    );
    let soon = NOW.after(Duration::from_secs(29));
    assert_eq!(dispatch(&cfg, AcpiEvent::LidClosed, false, false, &mut last, soon), None);
    let late = NOW.after(Duration::from_secs(30));
    assert_eq!(
        dispatch(&cfg, AcpiEvent::LidClosed, false, false, &mut last, late),
        Some(HandleAction::Suspend)
    );
    assert_eq!(dispatch(&cfg, AcpiEvent::LidOpened, false, false, &mut last, late), None);
    assert!(on_external_power(None));
    assert!(on_external_power(Some("1\n")));
    assert!(!on_external_power(Some("0\n")));
}

#[test]
fn paths_match_systemd_layout() {
    assert_eq!(
        PathBuf::from(session_scope(1000, "1")),
        PathBuf::from("/sys/fs/cgroup/user.slice/user-1000.slice/session-1.scope")
    );
    assert_eq!(
        session_scope_relative(1000, "1"),
        "/user.slice/user-1000.slice/session-1.scope"
    );
    assert_eq!(
        PathBuf::from(user_slice(0)),
        PathBuf::from("/sys/fs/cgroup/user.slice/user-0.slice")
    );
}

#[test]
fn leader_is_put_into_its_scope() {
    assert!(place_leader(1000, "1", 7, false).is_empty());
    let steps = place_leader(1000, "1", 7, true);
    assert_eq!(steps.len(), 5);
    match &steps[4] {
        PlaceStep::Write(w) => {
            assert_eq!(
                w.path,
                "/sys/fs/cgroup/user.slice/user-1000.slice/session-1.scope/cgroup.procs"
            );
            assert_eq!(w.value, "7");
        }
        other => panic!("expected Write, got {other:?}"),
    }
}

#[test]
fn path_for_renders_uid() {
    assert_eq!(PathBuf::from(path_for(1000)), PathBuf::from("/run/user/1000"));
    assert_eq!(PathBuf::from(path_for(0)), PathBuf::from("/run/user/0"));
}

#[test]
fn runtime_directory_is_made_and_mounted() {
    let steps = ensure(1000, 100, false);
    assert_eq!(steps.len(), 4);
    assert!(matches!(&steps[3], DirStep::Owner(p, 1000, 100) if p == "/run/user/1000"));
    assert_eq!(
        mount_options(1000, 100, "10%"),
        "mode=0700,uid=1000,gid=100,size=10%"
    );
    let table = "36 35 98:0 / /run/user/1000 rw - tmpfs tmpfs rw\n";
    assert!(is_mounted("/run/user/1000", table));
    assert!(!is_mounted("/run/user/1", table));
}

fn lock(what: &str, mode: &str, cookie: u64) -> dynamod::logind::inhibitor::Inhibitor {
    create_inhibitor(what.into(), "who".into(), "why".into(), mode.into(), 0, 0, cookie)
}

#[test]
fn blocked_actions_are_refused() {
    let mut locks = vec![lock("sleep:idle", "block", 1), lock("shutdown", "delay", 2)];
    let max = Duration::from_secs(5);
    match request_sleep(&mut locks, &vec![], SleepKind::Suspend, max) {
        Err(e) => {
            assert_eq!(e, BusError::Failed("blocked by inhibitor for 'sleep'".to_string()))
        }
        Ok(_) => panic!("expected a refusal"),
    }
    let steps = request_shutdown(&mut locks, &vec![], ShutdownKind::Reboot, max).unwrap();
    assert!(matches!(steps[2], PowerStep::AskManager(protocol::ShutdownKind::Reboot)));
    assert!(has_block_inhibitor(&mut locks, &vec![], "idle"));
    let steps = request_sleep(&mut locks, &vec![1], SleepKind::Hibernate, max).unwrap();
    assert_eq!(locks.len(), 1);
    assert!(matches!(steps[2], PowerStep::WriteState("disk")));
    assert_eq!(SleepKind::Suspend.sysfs_state(), "mem");
}

#[test]
fn delays_end_after_a_while() {
    let mut locks = vec![lock("sleep", "delay", 3)];
    let later = NOW.after(Duration::from_secs(5));
    assert_eq!(
        wait_for_delay_inhibitors(&mut locks, &vec![], "sleep", NOW, later),
        Delay::Wait
    );
    assert_eq!(
        wait_for_delay_inhibitors(&mut locks, &vec![], "sleep", later, later),
        Delay::GoAnyway
    );
    assert_eq!(
        wait_for_delay_inhibitors(&mut locks, &vec![3], "sleep", NOW, later),
        Delay::Go
    );
}

#[test]
fn buttons_respect_locks() {
    let max = Duration::from_secs(5);
    let mut locks = vec![lock("shutdown", "block", 1)];
    assert!(run_action(&mut locks, &vec![], HandleAction::Poweroff, max).is_empty());
    assert_eq!(run_action(&mut locks, &vec![], HandleAction::Suspend, max).len(), 4);
    assert!(run_action(&mut locks, &vec![1], HandleAction::Ignore, max).is_empty());
    assert_eq!(locks.len(), 1);
    assert_eq!(run_action(&mut locks, &vec![1], HandleAction::Poweroff, max).len(), 3);
    assert!(locks.is_empty());
}

#[test]
fn devices_of_a_session() {
    let names = |v: &[&str]| -> Vec<String> { v.iter().map(|s| s.to_string()).collect() };
    let devices = session_devices(
        &names(&["card0", "by-path", "renderD128"]),
        &names(&["event0", "mice", "js0"]),
        &names(&["pcm"]),
    );
    assert_eq!(
        devices,
        vec!["/dev/dri/card0", "/dev/dri/renderD128", "/dev/input/event0", "/dev/input/mice",
            "/dev/snd/pcm"]
    );
    let changes = apply_session_acl("seat0", 1000, &devices);
    assert_eq!(changes.len(), 5);
    assert_eq!(changes[0].uid, 1000);
    assert_eq!(changes[0].mode, 0o660);
    assert!(is_drm_device(226));
    assert_eq!(path_to_open(226, 0, true, None), "/dev/char/226:0");
    assert_eq!(
        path_to_open(226, 0, false, Some("MAJOR=226\nDEVNAME=dri/card0\n")),
        "/dev/dri/card0"
    );
    assert_eq!(path_to_open(226, 0, false, Some("MAJOR=226\n")), "/dev/char/226:0");
    let e = DeviceError::Open { path: "/x".to_string(), source: "gone".to_string() };
    assert_eq!(e.message(), "failed to open device /x: gone");
}

fn request<'a>(uid: u32, pid: u32, seat_id: &'a str) -> SessionRequest<'a> {
    SessionRequest {
        uid,
        pid,
        service: "login",
        session_type: "",
        class: "",
        desktop: "",
        seat_id,
        vtnr: 1,
        tty: "tty1",
        display: "",
        remote: false,
        remote_user: "",
        remote_host: "",
    }
}

fn fresh() -> LoginState {
    let mut st = LoginState::new();
    st.create_seat0();
    st
}

fn open(st: &mut LoginState, uid: u32, pid: u32) -> String {
    manager::create_session(st, request(uid, pid, ""), None, 5, NOW).unwrap().id
}

#[test]
fn first_session_comes_to_the_foreground() {
    let mut st = fresh();
    let a = manager::create_session(&mut st, request(1000, 10, ""), Some(("ann".into(), 100)), 5, NOW)
        .unwrap();
    assert_eq!(a.id, "1");
    assert_eq!(a.object_path, "/org/freedesktop/login1/session/_31");
    assert_eq!(a.runtime_path, "/run/user/1000");
    assert_eq!(a.seat, "seat0");
    assert_eq!(a.gid, 100);
    assert!(matches!(&a.acl[..], [AclStep::Apply(s, 1000)] if s == "seat0"));
    let b = open(&mut st, 1001, 11);
    assert!(session::find(&st, "1").unwrap().active);
    assert!(!session::find(&st, &b).unwrap().active);
    assert_eq!(session::find(&st, "1").unwrap().session_type, "tty");
    assert_eq!(session::find(&st, "1").unwrap().class, "user");
    assert_eq!(st.users.get(1001).unwrap().name, "uid1001");
    assert_eq!(st.users.get(1000).unwrap().state, UserState::Active);
    match manager::create_session(&mut st, request(1, 1, "seat9"), None, 5, NOW) {
        Err(e) => {
            assert_eq!(e, BusError::InvalidArgs("seat 'seat9' does not exist".to_string()))
        }
        Ok(_) => panic!("expected an error"),
    }
}

#[test]
fn first_state_has_one_empty_seat() {
    let mut st = fresh();
    assert_eq!(st.sessions.len(), 0);
    assert_eq!(st.seats.len(), 1);
    let seat = st.seats.get("seat0").unwrap();
    assert!(seat.sessions.is_empty());
    assert!(seat.active_session.is_none());
    let first = open(&mut st, 1000, 10);
    assert_eq!(first, "1");
    assert_eq!(st.seats.get("seat0").unwrap().active_session.as_deref(), Some("1"));
}

#[test]
fn removal_promotes_the_next_session() {
    let mut st = fresh();
    let a = open(&mut st, 1000, 10);
    let b = open(&mut st, 1001, 11);
    let r = manager::terminate_session(&mut st, &a).unwrap();
    assert_eq!(r.leader_pid, 10);
    assert_eq!(r.cleanup_after, Some(st.config.user_stop_delay));
    assert!(matches!(&r.acl[..], [AclStep::Revert(_), AclStep::Apply(_, 1001)]));
    assert!(session::find(&st, &b).unwrap().active);
    assert_eq!(session::find(&st, &b).unwrap().state, SessionState::Active);
    assert!(st.pending_user_cleanups.contains_key(1000));
    assert!(manager::release_session(&mut st, &a).is_err());
    let again = manager::create_session(&mut st, request(1000, 12, ""), None, 5, NOW).unwrap();
    assert!(again.cancel_cleanup);
    assert!(!st.pending_user_cleanups.contains_key(1000));
    assert!(!manager::cleanup_due(&mut st, 1000));
    assert!(manager::cleanup_due(&mut st, 2000));
}

#[test]
fn removed_session_is_displayed_no_longer() {
    let mut st = fresh();
    let a = open(&mut st, 1000, 10);
    let b = open(&mut st, 1000, 11);
    assert_eq!(user::display(&st, 1000).unwrap().0, a);
    manager::terminate_session(&mut st, &a).unwrap();
    assert_eq!(user::display(&st, 1000).unwrap().0, b);
    assert!(session::find(&st, &a).is_err());
}

#[test]
fn activation_hands_the_devices_over() {
    let mut st = fresh();
    let a = open(&mut st, 1000, 10);
    let b = open(&mut st, 1001, 11);
    let steps = manager::activate_session(&mut st, &b).unwrap();
    assert!(matches!(&steps[..], [AclStep::Revert(_), AclStep::Apply(_, 1001)]));
    assert!(!session::find(&st, &a).unwrap().active);
    let steps = manager::activate_session_on_seat(&mut st, &b, "seat0").unwrap();
    assert!(matches!(&steps[..], [AclStep::Apply(_, 1001)]));
    assert!(manager::activate_session(&mut st, "99").is_err());
    match manager::activate_session_on_seat(&mut st, &b, "seat1") {
        Err(e) => assert_eq!(
            e,
            BusError::Failed("session '2' is not on seat 'seat1'".to_string())
        ),
        Ok(_) => panic!("expected an error"),
    }
    seat::activate_session(&mut st, "seat0", &a).unwrap();
    assert_eq!(seat::active_session(&st, "seat0").unwrap().0, a);
    assert!(seat::activate_session(&mut st, "seat0", "99").is_err());
    assert!(seat::activate_session(&mut st, "seat7", &a).is_err());
}

#[test]
fn users_and_seats_are_torn_down() {
    let mut st = fresh();
    open(&mut st, 1000, 10);
    open(&mut st, 1000, 11);
    open(&mut st, 1001, 12);
    let (pids, removals) = teardown::terminate_user(&mut st, 1000);
    assert_eq!(pids, vec![10, 11]);
    assert_eq!(removals.len(), 2);
    assert!(removals[0].as_ref().unwrap().cleanup_after.is_none());
    assert!(removals[1].as_ref().unwrap().cleanup_after.is_some());
    let rest = teardown::terminate_seat(&mut st, "seat0").unwrap();
    assert_eq!(rest.len(), 1);
    assert_eq!(manager::list_sessions(&st).unwrap().len(), 0);
    assert!(teardown::terminate_seat(&mut st, "seat5").is_err());
    open(&mut st, 5, 50);
    open(&mut st, 5, 51);
    assert_eq!(seat::terminate(&mut st, "seat0").unwrap(), vec![50, 51]);
    open(&mut st, 6, 60);
    assert_eq!(user::terminate(&mut st, 6), vec![60]);
    assert!(user::terminate(&mut st, 6).is_empty());
}

#[test]
fn signals_reach_the_leaders() {
    let mut st = fresh();
    open(&mut st, 1000, 10);
    assert_eq!(user::kill(&st, 1000, 15).unwrap(), vec![10]);
    assert_eq!(user::kill(&st, 1000, 31).unwrap(), vec![10]);
    for n in [0, 32, -1] {
        match user::kill(&st, 1000, n) {
            Err(e) => {
                assert_eq!(e, BusError::InvalidArgs("invalid signal number".to_string()))
            }
            Ok(_) => panic!("expected an error"),
        }
    }
    assert!(user::kill(&st, 7, 15).unwrap().is_empty());
    assert_eq!(user::gid(7, None), 7);
    assert_eq!(user::state(&st, 1000).unwrap(), "active");
    assert_eq!(user::display(&st, 1000).unwrap().0, "1");
    assert!(user::sessions(&st, 7).is_err());
}

#[test]
fn objects_are_found() {
    let mut st = fresh();
    let a = open(&mut st, 1000, 10);
    assert_eq!(
        manager::get_session(&st, &a).unwrap(),
        "/org/freedesktop/login1/session/_31"
    );
    assert_eq!(manager::get_session_by_pid(&st, 10).unwrap(), manager::session_path(&a));
    assert_eq!(
        manager::get_session_by_pid(&st, 11).unwrap_err(),
        BusError::Failed("no session for PID 11".to_string())
    );
    assert_eq!(
        manager::get_seat(&st, "seat0").unwrap(),
        "/org/freedesktop/login1/seat/seat0"
    );
    assert_eq!(
        manager::get_seat(&st, "x").unwrap_err(),
        BusError::Failed("no seat 'x'".to_string())
    );
    assert_eq!(
        manager::get_user(&st, 1000).unwrap(),
        "/org/freedesktop/login1/user/_31_30_30_30"
    );
    assert!(manager::get_user(&st, 1).is_err());
    assert_eq!(manager::seat_path("a-b"), "/org/freedesktop/login1/seat/a_2db");
    assert_eq!(manager::systemd_escape(""), "_");
    assert_eq!(manager::list_users(&st).unwrap()[0].1, "uid1000");
    assert_eq!(manager::list_seats(&st).unwrap()[0].0, "seat0");
    assert_eq!(session::user(&st, &a).unwrap().0, 1000);
    assert_eq!(session::seat(&st, &a).unwrap().0, "seat0");
    assert_eq!(session::scope("1"), "session-1.scope");
    assert_eq!(session::state(&st, &a).unwrap(), "active");
    let later = NOW.after(Duration::from_millis(3));
    assert_eq!(session::timestamp_monotonic(&st, &a, later).unwrap(), 3000);
}

#[test]
fn locks_are_listed_until_given_up() {
    let mut st = fresh();
    let a = manager::inhibit(&mut st, "sleep:idle", "who", "why", "block", 1, 2);
    let b = manager::inhibit(&mut st, "idle:shutdown", "who", "why", "block", 1, 2);
    assert_ne!(a, b);
    assert_eq!(properties::block_inhibited(&st), "sleep:idle:shutdown");
    assert_eq!(properties::delay_inhibited(&st), "");
    assert_eq!(manager::list_inhibitors(&mut st, &vec![]).len(), 2);
    let left = manager::list_inhibitors(&mut st, &vec![a]);
    assert_eq!(left.len(), 1);
    assert_eq!(left[0].0, "idle:shutdown");
    assert_eq!(properties::can_suspend(Some("freeze mem disk")), "yes");
    assert_eq!(properties::can_hibernate(Some("freeze mem")), "na");
    assert!(properties::lid_closed(Some("state:      closed\n")));
    assert_eq!(properties::inhibit_delay_max_u_sec(&st), 5_000_000);
    assert!(properties::idle_hint(&st));
}

#[test]
fn devices_are_taken_and_given_back() {
    let mut st = fresh();
    let a = open(&mut st, 1000, 10);
    assert_eq!(
        session::take_device(&mut st, &a, 226, 0).unwrap_err(),
        BusError::Failed("caller is not the session controller".to_string())
    );
    session::take_control(&mut st, &a, false, Some(":1.5".to_string())).unwrap();
    assert_eq!(
        session::take_control(&mut st, &a, false, None).unwrap_err(),
        BusError::Failed("session already has a controller".to_string())
    );
    let grant = session::take_device(&mut st, &a, 226, 0).unwrap();
    assert!(grant.set_master);
    assert!(!grant.inactive);
    assert_eq!(
        session::take_device(&mut st, &a, 226, 0).unwrap_err(),
        BusError::Failed("device 226:0 already taken".to_string())
    );
    session::release_device(&mut st, &a, 226, 0).unwrap();
    assert_eq!(
        session::release_device(&mut st, &a, 226, 0).unwrap_err(),
        BusError::Failed("device 226:0 not taken".to_string())
    );
    session::take_device(&mut st, &a, 13, 64).unwrap();
    session::release_control(&mut st, &a).unwrap();
    assert!(session::find(&st, &a).unwrap().devices.is_empty());
    session::set_type(&mut st, &a, "wayland").unwrap();
    assert_eq!(
        session::set_type(&mut st, &a, "beos").unwrap_err(),
        BusError::InvalidArgs("unknown session type 'beos'".to_string())
    );
    session::set_idle_hint(&mut st, &a, true, 77).unwrap();
    assert_eq!(session::find(&st, &a).unwrap().idle_since_usec, 77);
    session::set_idle_hint(&mut st, &a, false, 78).unwrap();
    assert_eq!(session::find(&st, &a).unwrap().idle_since_usec, 0);
    assert_eq!(session::terminate(&mut st, &a).unwrap(), 10);
    assert_eq!(
        session::terminate(&mut st, &a).unwrap_err(),
        BusError::Failed("session not found".to_string())
    );
}

#[test]
fn terminals_have_neighbours() {
    assert_eq!(seat::next_vt(3), 4);
    assert_eq!(seat::previous_vt(3), Some(2));
    assert_eq!(seat::previous_vt(1), None);
}

#[test]
fn service_manager_answers_shutdown() {
    let m = shutdown_message(protocol::ShutdownKind::Halt);
    assert_eq!(m.id, 1);
    let answer = |body| Message { id: 1, kind: MessageKind::Event, body };
    assert!(command_result(9, Ok(answer(MessageBody::Ack))).is_ok());
    let refused = MessageBody::Error { message: "busy".to_string() };
    match command_result(9, Ok(answer(refused))) {
        Err(e) => assert_eq!(e.message(), "protocol error: busy"),
        Ok(_) => panic!("expected an error"),
    }
    match command_result(9, Ok(answer(MessageBody::Reload))) {
        Err(e) => assert_eq!(e.message(), "protocol error: unexpected response"),
        Ok(_) => panic!("expected an error"),
    }
    match command_result(0, Err(DecodeError::Incomplete)) {
        Err(e) => assert_eq!(e.message(), "protocol error: empty response"),
        Ok(_) => panic!("expected an error"),
    }
}
