use appmanager::runtime::{
    check_cancel, check_metadata_size, validate_raw_runtime, RawRuntime, RuntimeMetadata,
    RuntimeRepairError,
};
use appmanager::task::CancellationToken;

const OFFICIAL_PREFIX: &str = "https://github.com/PortsMaster/PortMaster-New/releases/download/";

fn image(body: &[u8]) -> Vec<u8> {
    let mut bytes = b"hsqs".to_vec();
    bytes.extend_from_slice(body);
    bytes
}

fn metadata_value(name: &str, arch: &str, image: &[u8]) -> serde_json::Value {
    let mut entry = serde_json::Map::new();
    entry.insert("runtime_name".into(), format!("{name}.squashfs").into());
    entry.insert("runtime_arch".into(), arch.into());
    entry.insert("size".into(), (image.len() as u64).into());
    entry.insert("md5".into(), format!("{:x}", md5::compute(image)).into());
    entry.insert("url".into(), format!("{OFFICIAL_PREFIX}test/{name}.squashfs").into());
    let mut utils = serde_json::Map::new();
    utils.insert("arbitrary-key".into(), serde_json::Value::Object(entry));
    let mut document = serde_json::Map::new();
    document.insert("utils".into(), serde_json::Value::Object(utils));
    serde_json::Value::Object(document)
}

fn metadata(name: &str, arch: &str, image: &[u8]) -> Vec<u8> {
    serde_json::to_vec(&metadata_value(name, arch, image)).unwrap()
}

fn raw_of(value: &serde_json::Value) -> Option<RawRuntime> {
    Some(RawRuntime {
        runtime_name: value.get("runtime_name")?.as_str()?.to_owned(),
        runtime_arch: value.get("runtime_arch")?.as_str()?.to_owned(),
        size: value.get("size")?.as_u64()?,
        md5: value.get("md5")?.as_str()?.to_owned(),
        url: value.get("url")?.as_str()?.to_owned(),
    })
}

/// Reads a metadata document as the service does: the size check, the JSON
/// document, then the runtimes under `utils` in key order.
fn parse(bytes: &[u8]) -> Result<RuntimeMetadata, RuntimeRepairError> {
    check_metadata_size(bytes.len())?;
    let document: serde_json::Value = serde_json::from_slice(bytes)
        .map_err(|error| RuntimeRepairError::InvalidMetadata(error.to_string()))?;
    let utils = document
        .get("utils")
        .and_then(|utils| utils.as_object())
        .ok_or_else(|| RuntimeRepairError::InvalidMetadata("missing field `utils`".to_owned()))?;
    RuntimeMetadata::from_raw_entries(utils.values().filter_map(raw_of).collect())
}

fn raw(name: &str, arch: &str, md5: &str, url: &str) -> RawRuntime {
    RawRuntime {
        runtime_name: name.to_owned(),
        runtime_arch: arch.to_owned(),
        size: 10,
        md5: md5.to_owned(),
        url: url.to_owned(),
    }
}

const MD5: &str = "0123456789ABCDEF0123456789abcdef";

#[test]
fn parses_only_canonical_official_runtime_entries() {
    let payload = image(b"runtime");
    let parsed = parse(&metadata("godot", "aarch64", &payload)).unwrap();
    let entry = parsed.get("godot", "aarch64").unwrap();
    assert_eq!(entry.size, payload.len() as u64);
    assert_eq!(entry.url, format!("{OFFICIAL_PREFIX}test/godot.squashfs"));

    let mut value = metadata_value("godot", "aarch64", &payload);
    value["utils"]["arbitrary-key"]["url"] =
        serde_json::Value::from("https://example.com/godot.squashfs");
    assert!(parse(&serde_json::to_vec(&value).unwrap()).is_err());
}

#[test]
fn renders_runtime_metadata_as_stable_tsv() {
    let payload = image(b"runtime");
    let parsed = parse(&metadata("godot", "aarch64", &payload)).unwrap();
    assert_eq!(
        parsed.to_tsv(),
        format!(
            "godot\taarch64\t{}\t{:x}\t{OFFICIAL_PREFIX}test/godot.squashfs\n",
            payload.len(),
            md5::compute(&payload)
        )
    );
}

#[test]
fn validation_lowercases_the_digest_and_strips_the_image_suffix() {
    let url = format!("{OFFICIAL_PREFIX}r1/mono-6.12.squashfs");
    let entry = validate_raw_runtime(&raw("mono-6.12.squashfs", "armhf", MD5, &url)).unwrap();
    assert_eq!(entry.name, "mono-6.12");
    assert_eq!(entry.arch, "armhf");
    assert_eq!(entry.md5, "0123456789abcdef0123456789abcdef");
    assert_eq!(entry.url, url);
}

#[test]
fn validation_rejects_each_unofficial_shape() {
    let good = format!("{OFFICIAL_PREFIX}r1/godot.squashfs");
    assert!(validate_raw_runtime(&raw("godot.squashfs", "mips", MD5, &good)).is_none());
    assert!(validate_raw_runtime(&raw("godot.squashfs", "x86_64", "abc", &good)).is_none());
    assert!(validate_raw_runtime(&raw(
        "godot.squashfs",
        "x86_64",
        "0123456789abcdef0123456789abcdeg",
        &good
    ))
    .is_none());
    assert!(validate_raw_runtime(&raw("godot.zip", "x86_64", MD5, &good)).is_none());
    let other_asset = format!("{OFFICIAL_PREFIX}r1/other.squashfs");
    assert!(validate_raw_runtime(&raw("godot.squashfs", "x86_64", MD5, &other_asset)).is_none());
    let nested = format!("{OFFICIAL_PREFIX}r1/extra/godot.squashfs");
    assert!(validate_raw_runtime(&raw("godot.squashfs", "x86_64", MD5, &nested)).is_none());
    let no_release = format!("{OFFICIAL_PREFIX}/godot.squashfs");
    assert!(validate_raw_runtime(&raw("godot.squashfs", "x86_64", MD5, &no_release)).is_none());
    let mut empty = raw("godot.squashfs", "x86_64", MD5, &good);
    empty.size = 0;
    assert!(validate_raw_runtime(&empty).is_none());
    assert!(validate_raw_runtime(&raw("godot.squashfs", "x86_64", MD5, &good)).is_some());
}

#[test]
fn repeated_runtimes_are_an_error_and_entries_are_ordered() {
    let godot = format!("{OFFICIAL_PREFIX}r1/godot.squashfs");
    let mono = format!("{OFFICIAL_PREFIX}r1/mono.squashfs");
    let metadata = RuntimeMetadata::from_raw_entries(vec![
        raw("mono.squashfs", "x86_64", MD5, &mono),
        raw("godot.squashfs", "x86_64", MD5, &godot),
        raw("godot.squashfs", "aarch64", MD5, &godot),
        raw("bad name.squashfs", "aarch64", MD5, &godot),
    ])
    .unwrap();
    let keys: Vec<(String, String)> = metadata
        .entries()
        .iter()
        .map(|entry| (entry.name.clone(), entry.arch.clone()))
        .collect();
    assert_eq!(
        keys,
        vec![
            ("godot".to_owned(), "aarch64".to_owned()),
            ("godot".to_owned(), "x86_64".to_owned()),
            ("mono".to_owned(), "x86_64".to_owned()),
        ]
    );
    assert!(metadata.get("mono", "aarch64").is_none());

    let error = RuntimeMetadata::from_raw_entries(vec![
        raw("godot.squashfs", "x86_64", MD5, &godot),
        raw("godot.squashfs", "x86_64", MD5, &godot),
    ])
    .unwrap_err();
    assert_eq!(
        error.message(),
        "invalid official Runtime metadata: duplicate Runtime metadata for godot (x86_64)"
    );
    let error = RuntimeMetadata::from_raw_entries(Vec::new()).unwrap_err();
    assert_eq!(
        error.message(),
        "invalid official Runtime metadata: ports.json contains no valid Runtime entries"
    );
}

#[test]
fn oversized_or_empty_metadata_is_refused() {
    assert!(check_metadata_size(0).is_err());
    assert!(check_metadata_size(32 * 1024 * 1024).is_ok());
    let error = check_metadata_size(32 * 1024 * 1024 + 1).unwrap_err();
    assert_eq!(
        error.message(),
        "invalid official Runtime metadata: ports.json is empty or exceeds 32 MiB"
    );
}

#[test]
fn cancellation_comes_from_the_token_or_the_cancel_file() {
    let token = CancellationToken::default();
    assert!(check_cancel(Some(&token), false).is_ok());
    assert!(check_cancel(None, true).is_err());
    token.cancel();
    assert!(matches!(check_cancel(Some(&token), false), Err(RuntimeRepairError::Cancelled)));
    assert_eq!(RuntimeRepairError::Cancelled.message(), "Runtime repair was cancelled");
}

use appmanager::runtime::{check_repair_request, progress_record};

fn catalog() -> RuntimeMetadata {
    let godot = format!("{OFFICIAL_PREFIX}r1/godot.squashfs");
    let mono = format!("{OFFICIAL_PREFIX}r1/mono.squashfs");
    let mut big = raw("mono.squashfs", "x86_64", MD5, &mono);
    big.size = u64::MAX;
    RuntimeMetadata::from_raw_entries(vec![
        raw("godot.squashfs", "aarch64", MD5, &godot),
        raw("mono.squashfs", "aarch64", MD5, &mono),
        raw("godot.squashfs", "x86_64", MD5, &godot),
        big,
    ])
    .unwrap()
}

fn names(values: &[&str]) -> Vec<String> {
    values.iter().map(|value| value.to_string()).collect()
}

#[test]
fn repair_requests_name_a_supported_architecture_and_a_runtime() {
    assert!(matches!(
        check_repair_request("mips", &names(&["godot"])),
        Err(RuntimeRepairError::UnsupportedArchitecture(arch)) if arch == "mips"
    ));
    assert_eq!(
        check_repair_request("aarch64", &Vec::new()).unwrap_err().message(),
        "invalid Runtime name: at least one Runtime is required"
    );
    assert!(check_repair_request("armhf", &names(&["godot"])).is_ok());
}

#[test]
fn requested_runtimes_are_selected_in_order_with_their_total_size() {
    let metadata = catalog();
    let (picked, total) = metadata.select(&names(&["mono", "godot"]), "aarch64").unwrap();
    assert_eq!(picked.iter().map(|entry| entry.name.as_str()).collect::<Vec<_>>(), ["mono", "godot"]);
    assert_eq!(total, 20);
    assert_eq!(
        metadata.select(&names(&["godot", "godot"]), "aarch64").unwrap_err().message(),
        "invalid Runtime name: godot"
    );
    assert_eq!(
        metadata.select(&names(&["../evil"]), "aarch64").unwrap_err().message(),
        "invalid Runtime name: ../evil"
    );
    assert_eq!(
        metadata.select(&names(&["python"]), "aarch64").unwrap_err().message(),
        "Runtime metadata does not contain python for aarch64"
    );
    assert_eq!(
        metadata.select(&names(&["godot", "mono"]), "x86_64").unwrap_err().message(),
        "invalid official Runtime metadata: Runtime size total overflowed"
    );
}

#[test]
fn progress_records_cap_the_count_and_keep_details_on_one_line() {
    let (frame, line) = progress_record("downloading", "godot", 1, 2, 900, 500, 7, "a\tb\nc");
    assert_eq!(frame.current, 500);
    assert_eq!(frame.detail, "a b c");
    assert_eq!(line, "1\tdownloading\tgodot\t1\t2\t500\t500\t7\ta b c\n");
}
