use appmanager::journal::{
    transaction_owner_token, validate_bundle_journal, BundleReplacement, BundleTransactionEntry,
    BundleTransactionJournal, BUNDLE_TRANSACTION_PREFIX,
};

const TOKEN: &str = "0123456789abcdef0123456789abcdef0123456789abcdef0123456789abcdef";

fn id() -> String {
    format!("{BUNDLE_TRANSACTION_PREFIX}{TOKEN}")
}

fn entry(target: &str, temporary: &str, backup: Option<&str>) -> BundleTransactionEntry {
    BundleTransactionEntry {
        target: target.to_owned(),
        temporary: temporary.to_owned(),
        device: 1,
        inode: 2,
        ready: true,
        replacement: backup.map(|backup| BundleReplacement { backup: backup.to_owned(), device: 1, inode: 3 }),
    }
}

fn journal(entries: Vec<BundleTransactionEntry>) -> BundleTransactionJournal {
    BundleTransactionJournal { schema: 1, transaction_id: id(), owner_token: TOKEN.to_owned(), entries }
}

fn roots() -> Vec<String> {
    vec!["/roms/ports".to_owned(), "/roms/ports/data".to_owned()]
}

fn valid_entries() -> Vec<BundleTransactionEntry> {
    vec![
        entry(
            "/roms/ports/Game.sh",
            &format!("/roms/ports/.pam-install-stage-{}-0-abc", id()),
            None,
        ),
        entry(
            "/roms/ports/data/game",
            &format!("/roms/ports/data/.pam-install-stage-{}-1-def", id()),
            Some(&format!("/roms/ports/data/.pam-install-replaced-{}-1", id())),
        ),
    ]
}

#[test]
fn a_journal_of_the_transaction_is_trusted() {
    assert_eq!(validate_bundle_journal(&journal(valid_entries()), &id(), true, &roots()), Ok(()));
}

#[test]
fn forged_journal_cannot_name_a_victim_directory() {
    let mut entries = valid_entries();
    entries[1].target = "/etc/victim".to_owned();
    assert_eq!(
        validate_bundle_journal(&journal(entries), &id(), true, &roots()).unwrap_err(),
        "bundle transaction contains an unsafe path"
    );
    let mut entries = valid_entries();
    entries[0].temporary = "/roms/ports/Game-temp".to_owned();
    assert_eq!(
        validate_bundle_journal(&journal(entries), &id(), true, &roots()).unwrap_err(),
        "bundle transaction contains an unsafe path"
    );
    let mut entries = valid_entries();
    entries.push(entries[0].clone());
    assert_eq!(
        validate_bundle_journal(&journal(entries), &id(), true, &roots()).unwrap_err(),
        "bundle transaction contains an unsafe path"
    );
    let mut entries = valid_entries();
    entries[1].replacement = Some(BundleReplacement { backup: "/roms/ports/data/other".to_owned(), device: 1, inode: 3 });
    assert_eq!(
        validate_bundle_journal(&journal(entries), &id(), true, &roots()).unwrap_err(),
        "bundle replacement transaction contains an unsafe path"
    );
}

#[test]
fn ownership_is_checked_first() {
    assert_eq!(
        validate_bundle_journal(&journal(valid_entries()), &id(), false, &roots()).unwrap_err(),
        "bundle transaction ownership check failed"
    );
    assert_eq!(
        validate_bundle_journal(&journal(valid_entries()), "other", true, &roots()).unwrap_err(),
        "bundle transaction ownership check failed"
    );
    let mut wrong_schema = journal(valid_entries());
    wrong_schema.schema = 2;
    assert!(validate_bundle_journal(&wrong_schema, &id(), true, &roots()).is_err());
    let mut short = journal(valid_entries());
    short.owner_token = "abc".to_owned();
    assert!(validate_bundle_journal(&short, &id(), true, &roots()).is_err());
}

#[test]
fn transaction_directories_name_their_owner_token() {
    assert_eq!(transaction_owner_token(&id()), Ok(TOKEN.to_owned()));
    assert_eq!(
        transaction_owner_token("unrelated").unwrap_err(),
        "bundle transaction prefix is invalid"
    );
    assert_eq!(
        transaction_owner_token(&format!("{BUNDLE_TRANSACTION_PREFIX}xyz")).unwrap_err(),
        "bundle transaction directory owner is invalid"
    );
}
