use apphub::apps::{
    app_launch_spec, child_path_env, get_app_port, get_apps_base_path, launch_mt4, launch_mt5,
};
use apphub::errors::HubError;
use apphub::reaper::kill_zombie_on_port;
use apphub::registry::{ProcessHandle, ProcessRegistry};
use apphub::relay::StreamKind;

#[test]
fn port_table_is_fixed() {
    assert_eq!(get_app_port("launcher"), Some(1424));
    assert_eq!(get_app_port("mql_fixer"), Some(1426));
    assert_eq!(get_app_port("copytrader"), Some(1427));
    assert_eq!(get_app_port("dashboard"), Some(1429));
    assert_eq!(get_app_port("charting"), Some(1430));
    assert_eq!(get_app_port("backtester"), Some(1430));
    assert_eq!(get_app_port("quantum_bt"), Some(1431));
    assert_eq!(get_app_port("nonsense"), None);
}

#[test]
fn launch_table_resolves_directories() {
    let (dir, cmd) = app_launch_spec("quantum_bt").unwrap();
    assert_eq!(dir, "quantum_bt_daavfx");
    assert_eq!(cmd, "npm run tauri dev");
    let (dir, _) = app_launch_spec("dashboard").unwrap();
    assert_eq!(dir, "dashboard/logic-canvas-main");
    assert!(app_launch_spec("launcher").is_none());
    assert!(app_launch_spec("nope").is_none());
}

#[test]
fn terminal_stubs_always_succeed() {
    assert!(launch_mt4().is_ok());
    assert!(launch_mt5().is_ok());
}

#[test]
fn launch_unknown_app_fails_and_registry_is_unchanged() {
    let mut reg = ProcessRegistry::new();
    let mut h = ProcessHandle::new(11);
    h.take_stdout().unwrap();
    h.take_stderr().unwrap();
    reg.register("copytrader", h);

    let r = reg.launch_prepare("not_an_app");
    match r {
        Err(HubError::UnknownApp(id)) => assert_eq!(id, "not_an_app"),
        _ => panic!("expected UnknownApp"),
    }
    assert!(reg.is_running("copytrader"));
    assert!(!reg.is_running("not_an_app"));
}

#[test]
fn relaunch_leaves_exactly_one_fresh_entry() {
    let mut reg = ProcessRegistry::new();

    let plan1 = reg.launch_prepare("quantum_bt").unwrap();
    assert!(plan1.evicted.is_none());
    assert_eq!(plan1.dir_name, "quantum_bt_daavfx");
    assert_eq!(plan1.command, "npm run tauri dev");
    let mut h1 = ProcessHandle::new(111);
    h1.take_stdout().unwrap();
    h1.take_stderr().unwrap();
    reg.register("quantum_bt", h1);
    assert!(reg.is_running("quantum_bt"));

    let plan2 = reg.launch_prepare("quantum_bt").unwrap();
    let evicted = plan2.evicted.expect("the stale handle is handed back for termination");
    assert_eq!(evicted.pid, 111);
    let mut h2 = ProcessHandle::new(222);
    h2.take_stdout().unwrap();
    h2.take_stderr().unwrap();
    assert_ne!(evicted.pid, h2.pid, "the fresh process is never the one torn down");
    reg.register("quantum_bt", h2);
    assert!(reg.is_running("quantum_bt"));

    let live = reg.kill_app("quantum_bt").unwrap();
    assert_eq!(live.pid, 222);
    assert!(!reg.is_running("quantum_bt"));
}

#[test]
fn kill_absent_app_reports_not_running_twice() {
    let mut reg = ProcessRegistry::new();
    match reg.kill_app("charting") {
        Err(HubError::NotRunning(id)) => assert_eq!(id, "charting"),
        _ => panic!("expected NotRunning"),
    }

    let _ = reg.launch_prepare("charting").unwrap();
    let mut h = ProcessHandle::new(7);
    h.take_stdout().unwrap();
    h.take_stderr().unwrap();
    reg.register("charting", h);
    let killed = reg.kill_app("charting").unwrap();
    assert_eq!(killed.pid, 7);
    match reg.kill_app("charting") {
        Err(HubError::NotRunning(id)) => assert_eq!(id, "charting"),
        _ => panic!("expected NotRunning on the second kill"),
    }
}

#[test]
fn streams_are_consumable_exactly_once() {
    let mut h = ProcessHandle::new(5);
    assert!(h.take_stdout().is_ok());
    match h.take_stdout() {
        Err(HubError::StreamCaptureFailed(StreamKind::Stdout)) => {}
        _ => panic!("a second take must fail, not produce an empty stream"),
    }
    assert!(h.take_stderr().is_ok());
    match h.take_stderr() {
        Err(HubError::StreamCaptureFailed(StreamKind::Stderr)) => {}
        _ => panic!("a second take must fail, not produce an empty stream"),
    }
}

#[test]
fn base_path_climbs_out_of_build_directories() {
    let dev = vec![
        "C:".to_string(),
        "APPS".to_string(),
        "launcher".to_string(),
        "src-tauri".to_string(),
        "target".to_string(),
        "debug".to_string(),
    ];
    assert_eq!(
        get_apps_base_path(&dev),
        Some(vec!["C:".to_string(), "APPS".to_string()])
    );

    let prod = vec!["C:".to_string(), "APPS".to_string(), "launcher".to_string()];
    assert_eq!(
        get_apps_base_path(&prod),
        Some(vec!["C:".to_string(), "APPS".to_string()])
    );

    let shallow = vec!["target".to_string()];
    assert_eq!(get_apps_base_path(&shallow), None);
    let empty: Vec<String> = Vec::new();
    assert_eq!(get_apps_base_path(&empty), None);
}

#[test]
fn child_path_appends_toolchain_directory() {
    let path = child_path_env("C:\\Windows;C:\\bin", "C:\\Users\\dev");
    assert_eq!(path, "C:\\Windows;C:\\bin;C:\\Users\\dev\\.cargo\\bin");
}

#[test]
fn reaper_selects_processes_on_the_port() {
    let listing = "  TCP    0.0.0.0:1424           0.0.0.0:0              LISTENING       4321\r\n  TCP    127.0.0.1:9999         0.0.0.0:0              LISTENING       777\n  UDP    [::]:1424              *:*                                    5555\n";
    assert_eq!(kill_zombie_on_port(1424, listing), vec![4321, 5555]);
}

#[test]
fn reaper_skips_idle_and_unparsable_rows() {
    let listing = "  TCP    0.0.0.0:1430    0.0.0.0:0    LISTENING    0\n  header line mentioning :1430 without a pid column\n  TCP    10.0.0.1:1430   1.2.3.4:55   ESTABLISHED  900\n";
    assert_eq!(kill_zombie_on_port(1430, listing), vec![900]);
}

#[test]
fn reaper_matches_nothing_on_a_quiet_port() {
    let listing = "  TCP    0.0.0.0:8080    0.0.0.0:0    LISTENING    42\n";
    assert_eq!(kill_zombie_on_port(1426, listing), Vec::<u32>::new());
}
