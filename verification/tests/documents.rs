use sizetrail::adapters::docker::{
    context_document_verified, data_folder_of, observed_version_of, usage_row_of,
    verified_version_of,
};
use sizetrail::adapters::homebrew::receipt_flag_of;
use sizetrail::adapters::xcode::{device_entries, selection_verdict, version_verdict, warning_text};
use sizetrail::adapters::{AdapterDegradedReason, AdapterState};
use sizetrail::json::JsonValue;

fn text(s: &str) -> JsonValue {
    JsonValue::Text(s.to_owned())
}

fn object(members: Vec<(&str, JsonValue)>) -> JsonValue {
    JsonValue::Object(members.into_iter().map(|(k, v)| (k.to_owned(), v)).collect())
}

fn context(host: &str, skip: bool) -> Option<JsonValue> {
    Some(JsonValue::Array(vec![object(vec![
        ("Name", text("desktop-linux")),
        ("Endpoints", object(vec![("docker", object(vec![("Host", text(host)), ("SkipTLSVerify", JsonValue::Bool(skip))]))])),
    ])]))
}

#[test]
fn parsed_context_documents_are_judged_by_their_fields() {
    let home = "/Users/fixture";
    assert!(context_document_verified(&context("unix:///Users/fixture/.docker/run/docker.sock", false), home));
    assert!(!context_document_verified(&context("unix:///Users/fixture/.docker/run/docker.sock", true), home));
    assert!(!context_document_verified(&context("tcp://127.0.0.1:2375", false), home));
    assert!(!context_document_verified(&None, home));
}

fn version_document(version: &str, api: &str, platform: &str) -> Option<JsonValue> {
    let peer = |with_platform: bool| {
        let mut members = vec![("Version", text(version)), ("ApiVersion", text(api))];
        if with_platform {
            members.push(("Platform", object(vec![("Name", text(platform))])));
        }
        object(members)
    };
    Some(object(vec![("Client", peer(false)), ("Server", peer(true))]))
}

#[test]
fn parsed_version_documents_name_the_observed_combination() {
    let verified = version_document("29.7.2", "1.55", "Docker Desktop 4.88.1 (237512)");
    assert_eq!(
        verified_version_of(&verified).as_deref(),
        Some("client 29.7.2 api 1.55; server 29.7.2 api 1.55; Docker Desktop 4.88.1 (237512)")
    );
    let other = version_document("28.0.0", "1.48", "Docker Desktop 4.40.0");
    assert_eq!(verified_version_of(&other), None);
    assert_eq!(
        observed_version_of(&other).as_deref(),
        Some("client 28.0.0 api 1.48; server 28.0.0 api 1.48; Docker Desktop 4.40.0")
    );
}

#[test]
fn parsed_summary_rows_and_settings_read_their_fields() {
    let row = Some(object(vec![
        ("Type", text("Local Volumes")),
        ("TotalCount", text("4")),
        ("Active", text("1")),
        ("Size", text("124.3MB")),
        ("Reclaimable", text("43.5MB (35%)")),
    ]));
    let (slot, parsed) = usage_row_of(&row).expect("a valid row");
    assert_eq!(slot, 2);
    assert_eq!(parsed.object_set_id, "docker.volumes");
    assert_eq!(parsed.total_count, 4);
    let bad = Some(object(vec![("Type", text("Networks"))]));
    assert!(usage_row_of(&bad).is_none());

    let settings = Some(object(vec![("DataFolder", text("/Volumes/Ext/Docker"))]));
    assert_eq!(data_folder_of(&settings, "DataFolder").as_deref(), Some("/Volumes/Ext/Docker"));
    assert_eq!(data_folder_of(&settings, "dataFolder"), None);

    let receipt = Some(object(vec![("installed_on_request", JsonValue::Bool(false))]));
    assert_eq!(receipt_flag_of(&receipt), Some(false));
    assert_eq!(receipt_flag_of(&Some(object(vec![]))), None);
}

#[test]
fn parsed_device_listings_keep_runtime_order() {
    let device = object(vec![
        ("udid", text("11111111-1111-1111-1111-111111111111")),
        ("name", text("iPhone 15")),
        ("isAvailable", JsonValue::Bool(false)),
        ("dataPath", text("/Users/t/Library/Developer/CoreSimulator/Devices/11111111-1111-1111-1111-111111111111/data")),
    ]);
    let listing = object(vec![(
        "devices",
        object(vec![("com.apple.CoreSimulator.SimRuntime.iOS-17-4", JsonValue::Array(vec![device]))]),
    )]);
    let entries = device_entries(&listing).expect("a devices document");
    assert_eq!(entries.len(), 1);
    assert_eq!(
        entries[0].device,
        Some(("11111111-1111-1111-1111-111111111111".to_owned(), "iPhone 15".to_owned(), false))
    );
    assert!(device_entries(&object(vec![("devices", JsonValue::Null)])).is_none());
}

#[test]
fn decoded_probe_text_decides_selection_and_version() {
    assert_eq!(selection_verdict("/Library/Developer/CommandLineTools\n"), Some(AdapterState::NotPresent));
    assert_eq!(selection_verdict(" /Applications/Xcode.app/Contents/Developer \n"), None);
    assert_eq!(
        selection_verdict("/opt/xcode/Developer\n"),
        Some(AdapterState::Degraded {
            observed_version: None,
            reason: AdapterDegradedReason::InvalidSelection,
        })
    );
    assert_eq!(version_verdict("Xcode 26.6\nBuild version 17F113\n"), Ok("26.6 (17F113)".to_owned()));
    assert_eq!(version_verdict("Xcode 26.6\n"), Err(Some("26.6".to_owned())));
    assert_eq!(version_verdict("garbage"), Err(None));
    assert!(warning_text(" note "));
    assert!(!warning_text(" \n\t"));
}
