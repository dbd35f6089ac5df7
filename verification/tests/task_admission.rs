use appmanager::launcher::{EmbeddedAction, Password};
use appmanager::task_admission::{check_task_payload, task_lane, TaskLane};

fn action(kind: &str, password: Option<&str>) -> EmbeddedAction {
    EmbeddedAction {
        kind: kind.to_owned(),
        arg: "/media/game.zip".to_owned(),
        source_identity: None,
        replace_existing: false,
        password: password.map(|p| Password::new(p.to_owned())),
    }
}

#[test]
fn background_checks_take_no_payload() {
    assert_eq!(task_lane("config-refresh-if-newer", &None, &None, false), Ok(TaskLane::ConfigRefresh));
    assert_eq!(task_lane("update-check-if-stale", &None, &None, true), Ok(TaskLane::UpdateCheck));
    assert_eq!(
        task_lane("config-refresh-if-newer", &None, &Some("abc".to_owned()), false),
        Err("task \"config-refresh-if-newer\" does not accept a payload".to_owned())
    );
    assert_eq!(
        task_lane("update-check-if-stale", &Some(Vec::new()), &None, false),
        Err("task \"update-check-if-stale\" does not accept a payload".to_owned())
    );
}

#[test]
fn passwords_belong_only_to_zip_installs() {
    let refusal = Err("archive passwords are accepted only by INSTALL_ZIP and must be at most 1024 bytes".to_owned());
    assert_eq!(task_lane("apply", &Some(vec![action("TRASH", Some("secret"))]), &None, false), refusal);
    assert_eq!(task_lane("install-zips", &Some(vec![action("TRASH", Some("secret"))]), &None, false), refusal);
    let long = "x".repeat(1025);
    assert_eq!(task_lane("install-zips", &Some(vec![action("INSTALL_ZIP", Some(&long))]), &None, false), refusal);
    let exact = "é".repeat(512);
    assert_eq!(
        task_lane("install-zips", &Some(vec![action("INSTALL_ZIP", Some(&exact))]), &None, false),
        Ok(TaskLane::Foreground)
    );
    assert_eq!(
        task_lane("install-zips", &Some(vec![action("INSTALL_ZIP", None), action("INSTALL_ZIP", Some("pw"))]), &None, false),
        Ok(TaskLane::Foreground)
    );
}

#[test]
fn a_manual_update_check_waits_for_the_automatic_one() {
    assert_eq!(
        task_lane("update-check", &None, &None, true),
        Err("the automatic PortMaster update check is already running".to_owned())
    );
    assert_eq!(task_lane("update-check", &None, &None, false), Ok(TaskLane::Foreground));
}

#[test]
fn foreground_payloads_are_checked() {
    let revision = "A".repeat(64);
    assert_eq!(
        check_task_payload("apply", &Some(Vec::new()), &Some(revision.clone())),
        Err("APP Manager action list is empty".to_owned())
    );
    assert_eq!(
        check_task_payload("apply", &Some(vec![action("TRASH", None)]), &None),
        Err("apply requires a current inventory revision".to_owned())
    );
    assert_eq!(
        check_task_payload("apply", &Some(vec![action("TRASH", None)]), &Some("g".repeat(64))),
        Err("apply requires a current inventory revision".to_owned())
    );
    assert_eq!(check_task_payload("apply", &Some(vec![action("TRASH", None)]), &Some(revision.clone())), Ok(()));
    assert_eq!(
        check_task_payload("install-zips", &Some(vec![action("INSTALL_ZIP", None)]), &Some(revision)),
        Err("task \"install-zips\" does not accept an inventory revision".to_owned())
    );
    assert_eq!(
        check_task_payload("scan-zips", &Some(Vec::new()), &None),
        Err("task \"scan-zips\" does not accept a payload".to_owned())
    );
    assert_eq!(
        check_task_payload("frobnicate", &None, &None),
        Err("unsupported APP Manager task \"frobnicate\"".to_owned())
    );
    assert_eq!(check_task_payload("scan-zips", &None, &None), Ok(()));
}
