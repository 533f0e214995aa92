use livox_sdk2::device::DeviceInfo;
use livox_sdk2::sdk::{Phase, Sdk, StartupAction};

type Session = Sdk<Vec<u32>>;

fn raw(text: &str) -> [u8; 16] {
    let mut out = [0u8; 16];
    out[..text.len()].copy_from_slice(text.as_bytes());
    out
}

fn report(s: &mut Session, handle: u32, dev_type: u8, sn: &str, ip: &str) -> DeviceInfo {
    s.device_info_changed(handle, dev_type, &raw(sn), &raw(ip))
}

#[test]
fn nul_in_config_path_is_refused() {
    match Session::new("conf\0ig.json") {
        Err(e) => assert_eq!(e, "config path contains NUL"),
        Ok(_) => panic!("a path with NUL must be refused"),
    }
    assert!(Session::new("mid360_config.json").is_ok());
    assert!(Session::new("").is_ok());
}

#[test]
fn startup_succeeds_after_init_and_start() {
    let mut s = Session::new("mid360_config.json").unwrap();
    assert_eq!(s.startup_phase(), Phase::AwaitingInit);
    assert!(matches!(s.init_finished(true), StartupAction::InstallHandlerAndStart));
    assert_eq!(s.startup_phase(), Phase::AwaitingStart);
    assert!(matches!(s.start_finished(true), StartupAction::Ready));
    assert_eq!(s.startup_phase(), Phase::Running);
    assert!(s.devices().is_empty());
}

#[test]
fn failed_init_reports_without_uninit() {
    let mut s = Session::new("cfg.json").unwrap();
    match s.init_finished(false) {
        StartupAction::Fail(e) => assert_eq!(e, "LivoxLidarSdkInit failed"),
        other => panic!("unexpected action {:?}", other),
    }
    assert_eq!(s.startup_phase(), Phase::Failed);
}

#[test]
fn failed_start_uninitializes() {
    let mut s = Session::new("cfg.json").unwrap();
    s.init_finished(true);
    match s.start_finished(false) {
        StartupAction::UninitAndFail(e) => assert_eq!(e, "LivoxLidarSdkStart failed"),
        other => panic!("unexpected action {:?}", other),
    }
}

#[test]
fn devices_are_sorted_by_handle_and_latest_wins() {
    let mut s = Session::new("cfg.json").unwrap();
    let d5 = report(&mut s, 5, 9, "SN5", "192.168.1.5");
    report(&mut s, 2, 15, "SN2", "192.168.1.2");
    report(&mut s, 9, 9, "SN9", "192.168.1.9");
    assert_eq!(d5, DeviceInfo { handle: 5, dev_type: 9, sn: "SN5".into(), lidar_ip: "192.168.1.5".into() });
    let handles: Vec<u32> = s.devices().iter().map(|d| d.handle).collect();
    assert_eq!(handles, vec![2, 5, 9]);

    let again = report(&mut s, 5, 9, "SN5", "192.168.1.50");
    let devs = s.devices();
    assert_eq!(devs.len(), 3);
    assert_eq!(devs[1], again);
    assert_eq!(devs[1].lidar_ip, "192.168.1.50");
    assert_eq!(devs[0].sn, "SN2");
    assert_eq!(devs[2].sn, "SN9");
}

#[test]
fn reports_in_any_order_give_the_same_snapshot() {
    let mut a = Session::new("cfg.json").unwrap();
    let mut b = Session::new("cfg.json").unwrap();
    for h in [3u32, 1, 4, 0, 2] {
        report(&mut a, h, 9, "X", "10.0.0.1");
    }
    for h in [0u32, 1, 2, 3, 4] {
        report(&mut b, h, 9, "X", "10.0.0.1");
    }
    assert_eq!(a.devices(), b.devices());
    assert_eq!(a.devices().len(), 5);
}

#[test]
fn device_change_callback_slot() {
    let mut s = Session::new("cfg.json").unwrap();
    assert!(s.registered_device_change_callback().is_none());
    s.set_device_change_callback(vec![1]);
    s.set_device_change_callback(vec![2]);
    assert_eq!(s.registered_device_change_callback(), &Some(vec![2]));
    report(&mut s, 4, 9, "SN", "10.0.0.4");
    assert_eq!(s.registered_device_change_callback(), &Some(vec![2]));
}

#[test]
fn reopen_keeps_devices_and_callback() {
    let mut s = Session::new("cfg.json").unwrap();
    s.set_device_change_callback(vec![7]);
    report(&mut s, 3, 15, "S3", "192.168.1.3");
    s.init_finished(false);
    assert_eq!(s.startup_phase(), Phase::Failed);
    match s.reopen("bad\0path") {
        Err(e) => assert_eq!(e, "config path contains NUL"),
        Ok(()) => panic!("a path with NUL must be refused"),
    }
    assert_eq!(s.startup_phase(), Phase::Failed);
    assert!(s.reopen("cfg.json").is_ok());
    assert_eq!(s.startup_phase(), Phase::AwaitingInit);
    assert_eq!(s.registered_device_change_callback(), &Some(vec![7]));
    let devs = s.devices();
    assert_eq!(devs.len(), 1);
    assert_eq!(devs[0], DeviceInfo { handle: 3, dev_type: 15, sn: "S3".into(), lidar_ip: "192.168.1.3".into() });
}

#[test]
fn snapshot_shows_latest_report_per_handle() {
    let mut s = Session::new("cfg.json").unwrap();
    report(&mut s, 5, 15, "S5", "192.168.1.5");
    report(&mut s, 2, 9, "S2", "192.168.1.2");
    assert_eq!(
        s.devices(),
        vec![
            DeviceInfo { handle: 2, dev_type: 9, sn: "S2".into(), lidar_ip: "192.168.1.2".into() },
            DeviceInfo { handle: 5, dev_type: 15, sn: "S5".into(), lidar_ip: "192.168.1.5".into() },
        ]
    );
    report(&mut s, 1, 9, "A", "192.168.1.3");
    report(&mut s, 1, 9, "A", "192.168.1.4");
    let devs = s.devices();
    assert_eq!(devs.len(), 3);
    assert_eq!(devs[0], DeviceInfo { handle: 1, dev_type: 9, sn: "A".into(), lidar_ip: "192.168.1.4".into() });
}

#[test]
fn no_second_init_while_initialized() {
    let mut s = Session::new("cfg.json").unwrap();
    s.init_finished(true);
    match s.reopen("cfg.json") {
        Err(e) => assert_eq!(e, "SDK already initialized"),
        Ok(()) => panic!("the SDK must not be initialized twice"),
    }
    assert_eq!(s.startup_phase(), Phase::AwaitingStart);
    s.start_finished(true);
    assert!(s.reopen("cfg.json").is_err());
    assert_eq!(s.startup_phase(), Phase::Running);
}

#[test]
fn stop_uninitializes_once() {
    let mut s = Session::new("cfg.json").unwrap();
    assert!(!s.stop());
    s.init_finished(true);
    s.start_finished(true);
    assert!(s.stop());
    assert_eq!(s.startup_phase(), Phase::Stopped);
    assert!(!s.stop());
    assert!(s.reopen("cfg.json").is_ok());
    assert_eq!(s.startup_phase(), Phase::AwaitingInit);
}

#[test]
fn failed_start_leaves_sdk_uninitialized() {
    let mut s = Session::new("cfg.json").unwrap();
    s.init_finished(true);
    s.start_finished(false);
    assert!(!s.stop());
    assert!(s.reopen("cfg.json").is_ok());
}
