use appmanager::install_plan::{
    commit_plan, conflict_outcome, recovery_plan, retirement_check, rollback_plan, EntryState, PlanAction,
};
use appmanager::journal::{BundleReplacement, BundleTransactionEntry, BundleTransactionJournal};
use appmanager::shell_paths::analyze;

fn entry(target: &str, id: u64, replaced: Option<u64>) -> BundleTransactionEntry {
    BundleTransactionEntry {
        target: target.to_string(),
        temporary: format!("{target}.tmp"),
        device: 1,
        inode: id,
        ready: true,
        replacement: replaced.map(|inode| BundleReplacement { backup: format!("{target}.old"), device: 1, inode }),
    }
}

fn journal(entries: Vec<BundleTransactionEntry>) -> BundleTransactionJournal {
    BundleTransactionJournal { schema: 1, transaction_id: "t".to_string(), owner_token: "o".to_string(), entries }
}

fn state(target: Option<u64>, temporary: Option<u64>, backup: Option<u64>) -> EntryState {
    EntryState {
        target: target.map(|i| (1, i)),
        temporary: temporary.map(|i| (1, i)),
        backup: backup.map(|i| (1, i)),
    }
}

fn describe(actions: &[PlanAction]) -> Vec<String> {
    actions.iter().map(|a| format!("{a:?}")).collect()
}

#[test]
fn commit_publishes_directories_before_the_launcher() {
    let j = journal(vec![entry("/ports/game.sh", 10, None), entry("/ports/game", 11, None)]);
    let observed = vec![state(None, Some(10), None), state(None, Some(11), None)];
    let actions = commit_plan(&j, &vec![false, true], false, &observed).unwrap();
    assert_eq!(describe(&actions), vec!["Publish(1)", "Publish(0)"]);
}

#[test]
fn commit_sets_aside_a_replaced_directory_first() {
    let j = journal(vec![entry("/ports/game.sh", 10, None), entry("/ports/game", 11, Some(5))]);
    let observed = vec![state(None, Some(10), None), state(Some(5), Some(11), None)];
    let actions = commit_plan(&j, &vec![false, true], true, &observed).unwrap();
    assert_eq!(describe(&actions), vec!["SetAside(1)", "Publish(1)", "Publish(0)"]);
}

#[test]
fn commit_refuses_a_launcher_that_appeared_and_an_unchosen_replacement() {
    let j = journal(vec![entry("/ports/game.sh", 10, Some(5))]);
    let observed = vec![state(Some(5), Some(10), None)];
    assert!(commit_plan(&j, &vec![false], true, &observed).unwrap_err().contains("launcher target appeared"));
    let j = journal(vec![entry("/ports/game", 10, Some(5))]);
    assert!(commit_plan(&j, &vec![true], false, &observed).unwrap_err().contains("without replacing"));
}

#[test]
fn rollback_removes_the_install_and_restores_the_replaced_target() {
    let j = journal(vec![entry("/ports/game", 11, Some(5))]);
    let observed = vec![state(Some(11), None, Some(5))];
    let (actions, complete) = rollback_plan(&j, &observed);
    assert_eq!(describe(&actions), vec!["RemoveTarget(0)", "Restore(0)"]);
    assert!(complete);
}

#[test]
fn rollback_leaves_an_unrelated_target_alone() {
    let j = journal(vec![entry("/ports/game", 11, Some(5))]);
    let observed = vec![state(Some(99), Some(11), Some(5))];
    let (actions, complete) = rollback_plan(&j, &observed);
    assert_eq!(describe(&actions), vec!["RemoveTemporary(0)"]);
    assert!(!complete);
}

#[test]
fn recovery_rolls_forward_an_interrupted_publish() {
    let j = journal(vec![entry("/ports/game.sh", 10, None), entry("/ports/game", 11, None)]);
    let observed = vec![state(None, Some(10), None), state(Some(11), None, None)];
    let plan = recovery_plan(&j, false, &observed).unwrap();
    assert!(plan.finished);
    assert!(plan.complete);
    assert_eq!(describe(&plan.actions), vec!["Publish(0)", "RemoveOwnerMarker(1)", "RemoveOwnerMarker(0)"]);
}

#[test]
fn recovery_of_a_committed_transaction_only_cleans_up() {
    let j = journal(vec![entry("/ports/game", 11, Some(5))]);
    let observed = vec![state(Some(11), None, Some(5))];
    let plan = recovery_plan(&j, true, &observed).unwrap();
    assert_eq!(describe(&plan.actions), vec!["RemoveOwnerMarker(0)", "RemoveBackup(0)"]);
}

#[test]
fn recovery_reports_an_occupied_backup_path() {
    let j = journal(vec![entry("/ports/game", 11, Some(5))]);
    let observed = vec![state(Some(5), Some(11), Some(7))];
    assert_eq!(
        recovery_plan(&j, false, &observed).err().unwrap(),
        "recover preserved install target: backup path is occupied"
    );
}

#[test]
fn conflicts_stop_an_install_unless_replacing() {
    let targets = vec!["/ports/a.sh".to_string(), "/ports/a".to_string()];
    let outcome = conflict_outcome(&targets, &vec![false, true], false).unwrap();
    assert!(outcome.installed.is_empty());
    assert_eq!(outcome.conflicts, vec!["/ports/a".to_string()]);
    assert!(conflict_outcome(&targets, &vec![false, true], true).is_none());
    assert!(conflict_outcome(&targets, &vec![false, false], false).is_none());
}

#[test]
fn retirement_requires_the_inspected_file() {
    assert!(retirement_check("1:2", "1:2").is_ok());
    assert_eq!(
        retirement_check("1:2", "1:3").unwrap_err(),
        "archive changed after it was scanned; please scan it again"
    );
}

#[test]
fn an_over_long_variable_stops_the_analysis() {
    let vars = vec![("GAMEDIR".to_string(), "x".repeat(5000))];
    let r = analyze("cd /ports/game", &vars, "/roms/ports/a.sh");
    assert_eq!(r.diagnostics, vec!["/roms/ports/a.sh: input variable limit".to_string()]);
    assert!(r.paths.is_empty() && r.working_directories.is_empty() && r.notes.is_empty());
}

#[test]
fn a_known_cd_records_the_working_directory() {
    let r = analyze("cd /ports/game", &vec![], "/roms/ports/a.sh");
    assert!(r.working_directories.contains(&"/ports/game".to_string()));
    assert!(r.paths.contains(&"/ports/game".to_string()));
}
