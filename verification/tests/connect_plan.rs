use librertc_client::profile::ClientProfile;
use librertc_client::runtime::{runtime_file_candidates, runtime_file_missing, FileBase};
use librertc_client::store::{cleanup_steps, connect_steps, ClientStore, ConnectStep, UndoStep};

fn profile(mode: &str) -> ClientProfile {
    let mut p = ClientProfile::initial("1.0.0");
    p.mode = mode.to_string();
    p
}

#[test]
fn connect_steps_follow_the_mode() {
    assert_eq!(
        connect_steps(&profile("tun")),
        vec![ConnectStep::WaitForSocks, ConnectStep::StartTun]
    );
    assert_eq!(
        connect_steps(&profile("proxy")),
        vec![ConnectStep::WaitForSocks, ConnectStep::StartHttpProxy, ConnectStep::EnableSystemProxy]
    );
}

#[test]
fn cleanup_undoes_done_steps_latest_first_then_kills() {
    assert_eq!(cleanup_steps(&[]), vec![UndoStep::KillRuntime]);
    assert_eq!(cleanup_steps(&[ConnectStep::WaitForSocks]), vec![UndoStep::KillRuntime]);
    assert_eq!(
        cleanup_steps(&[ConnectStep::WaitForSocks, ConnectStep::StartHttpProxy]),
        vec![UndoStep::StopHttpProxy, UndoStep::KillRuntime]
    );
    assert_eq!(
        cleanup_steps(&[
            ConnectStep::WaitForSocks,
            ConnectStep::StartHttpProxy,
            ConnectStep::EnableSystemProxy
        ]),
        vec![UndoStep::RestoreSystemProxy, UndoStep::StopHttpProxy, UndoStep::KillRuntime]
    );
    assert_eq!(
        cleanup_steps(&[ConnectStep::WaitForSocks, ConnectStep::StartTun]),
        vec![UndoStep::StopTun, UndoStep::KillRuntime]
    );
}

#[test]
fn runtime_file_places_in_order() {
    assert_eq!(
        runtime_file_candidates("bin\\olcrtc.exe", "olcrtc.exe"),
        vec![
            (FileBase::AppDir, "bin\\olcrtc.exe".to_string()),
            (FileBase::AppDir, "olcrtc.exe".to_string()),
            (FileBase::AppResources, "olcrtc.exe".to_string()),
            (FileBase::CurrentDir, "bin\\olcrtc.exe".to_string()),
        ]
    );
    assert_eq!(
        runtime_file_missing("olcrtc.exe"),
        "LibreRTC runtime file is missing: expected olcrtc.exe next to the app or in resources"
    );
}

#[test]
fn new_store_has_the_ready_status() {
    let (s, _) = ClientStore::<()>::new(None, "1.0.0");
    assert_eq!(s.status.download_bps, 0);
    assert_eq!(s.status.upload_bps, 0);
    assert_eq!(s.status.download_bytes, 0);
    assert_eq!(s.status.upload_bytes, 0);
    assert_eq!(s.status.started_at, "");
    assert_eq!(s.status.notice, "");
    assert_eq!(s.status.state, "disconnected");
}
