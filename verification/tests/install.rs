use deeper::install::{install_step, InstallEvent, InstallStage};

#[test]
fn installed_resource_is_reported() {
    let s = install_step("live2d", "hiyori", InstallStage::Checking, InstallEvent::Checked(true));
    assert!(s.next.is_none());
    assert_eq!(s.events.len(), 1);
    assert_eq!(s.events[0].step, "installed");
    assert_eq!(s.events[0].percent, Some(100));
}

#[test]
fn full_installation_path() {
    let s = install_step("live2d", "hiyori", InstallStage::Checking, InstallEvent::Checked(false));
    assert!(s.next == Some(InstallStage::Downloading));
    assert_eq!((s.events[0].step.as_str(), s.events[0].percent, s.events[0].processed), ("downloading", Some(0), Some(0)));
    let s = install_step("live2d", "hiyori", InstallStage::Downloading, InstallEvent::Downloaded(Ok(())));
    assert!(s.next == Some(InstallStage::Unpacking));
    let steps: Vec<&str> = s.events.iter().map(|e| e.step.as_str()).collect();
    assert_eq!(steps, vec!["download-done", "extracting"]);
    let s = install_step("live2d", "hiyori", InstallStage::Unpacking, InstallEvent::Unpacked(Ok(())));
    assert!(s.next == Some(InstallStage::Verifying) && s.events.is_empty());
    let s = install_step("live2d", "hiyori", InstallStage::Verifying, InstallEvent::Verified(true));
    assert!(s.next == Some(InstallStage::Recording) && s.events.is_empty());
    let s = install_step("live2d", "hiyori", InstallStage::Recording, InstallEvent::Recorded);
    assert!(s.next.is_none());
    assert_eq!(s.events[0].step, "done");
}

#[test]
fn installation_failures() {
    let s = install_step("live2d", "hiyori", InstallStage::Downloading, InstallEvent::Downloaded(Err("下载失败".to_string())));
    assert!(s.next.is_none());
    assert_eq!(s.events[0].step, "error");
    assert_eq!(s.events[0].message.as_deref(), Some("下载失败"));
    let s = install_step("live2d", "hiyori", InstallStage::Unpacking, InstallEvent::DirFailed("denied".to_string()));
    assert_eq!(s.events[0].message.as_deref(), Some("创建资源目录失败: denied"));
    let s = install_step("live2d", "hiyori", InstallStage::Verifying, InstallEvent::Verified(false));
    assert_eq!(s.events[0].message.as_deref(), Some("资源解压后校验失败: type=live2d name=hiyori"));
    let s = install_step("live2d", "hiyori", InstallStage::Recording, InstallEvent::Checked(true));
    assert!(s.next.is_none() && s.events.is_empty());
}
