use appmanager::digests::lower_hex;
use appmanager::revision::{inventory_revision, missing_fact, path_fact};
use appmanager::runtime::{ImageValidation, RuntimeMetadataEntry, RuntimeRepairError};
use sha2::Digest;

fn hex(bytes: &[u8]) -> String {
    bytes.iter().map(|byte| format!("{byte:02x}")).collect()
}

#[test]
fn hexadecimal_text_uses_two_lower_case_digits_per_byte() {
    assert_eq!(lower_hex(&[0x00, 0x0f, 0xa0, 0xff]), "000fa0ff");
    assert_eq!(lower_hex(&[]), "");
}

#[test]
fn inventory_revision_is_the_digest_of_sorted_fact_lines() {
    let expected = hex(&sha2::Sha256::digest(b"a\nb\nb\n"));
    let revision = inventory_revision(vec!["b".to_owned(), "a".to_owned(), "b".to_owned()]);
    assert_eq!(revision, expected);
    assert_eq!(revision.len(), 64);
    assert_eq!(
        inventory_revision(vec!["a".to_owned(), "b".to_owned(), "b".to_owned()]),
        revision
    );
    assert_ne!(inventory_revision(vec!["a".to_owned(), "c".to_owned()]), revision);
    assert_eq!(inventory_revision(Vec::new()), hex(&sha2::Sha256::digest(b"")));
}

#[test]
fn path_facts_name_the_metadata_that_identifies_an_item() {
    assert_eq!(
        path_fact("/roms/ports/Game.sh", 2049, 77, 0o100755, 120, 1_700_000_000, 5),
        "path\t/roms/ports/Game.sh\t2049\t77\t33261\t120\t1700000000\t5"
    );
    assert_eq!(path_fact("/x", 0, 0, 0, 0, -1, i64::MIN), format!("path\t/x\t0\t0\t0\t0\t-1\t{}", i64::MIN));
    assert_eq!(missing_fact("/roms/ports/Gone"), "missing\t/roms/ports/Gone");
}

fn entry(image: &[u8]) -> RuntimeMetadataEntry {
    RuntimeMetadataEntry {
        name: "godot".to_owned(),
        arch: "aarch64".to_owned(),
        size: image.len() as u64,
        md5: hex(&md5::compute(image).0),
        url: "https://github.com/PortsMaster/PortMaster-New/releases/download/r/godot.squashfs".to_owned(),
    }
}

fn validate(entry: &RuntimeMetadataEntry, is_file: bool, image: &[u8]) -> Result<(), RuntimeRepairError> {
    let mut validation = ImageValidation::begin(entry, is_file, image.len() as u64)?;
    let magic = image.get(..4).map(|bytes| [bytes[0], bytes[1], bytes[2], bytes[3]]);
    validation.check_magic(magic)?;
    for chunk in image[4..].chunks(3) {
        validation.consume(chunk);
    }
    validation.finish()
}

#[test]
fn runtime_images_are_checked_for_size_magic_and_digest() {
    let image = b"hsqs runtime image bytes".to_vec();
    let good = entry(&image);
    assert!(validate(&good, true, &image).is_ok());
    assert!(matches!(validate(&good, false, &image), Err(RuntimeRepairError::Validation(name)) if name == "godot"));
    let mut corrupted = image.clone();
    corrupted[10] ^= 1;
    assert!(matches!(validate(&good, true, &corrupted), Err(RuntimeRepairError::Validation(_))));
    let mut wrong_magic = image.clone();
    wrong_magic[0] = b'x';
    let other = entry(&wrong_magic);
    assert!(matches!(validate(&other, true, &wrong_magic), Err(RuntimeRepairError::Validation(_))));
    let mut short = entry(&image);
    short.size = 3;
    assert!(validate(&short, true, b"hsq").is_err());
}
