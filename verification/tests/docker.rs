use sizetrail::adapters::docker::{
    context_inspect, parse_system_df, probe, system_df, system_df_probe, system_df_rows,
    verified_context, version, DockerUsageRow,
};
use sizetrail::adapters::docker::{choose_disk_image, daemon_inventory, disk_item, parse_data_folder, DockerAdapter};
use sizetrail::adapters::{AdapterDegradedReason, AdapterState, Inventory, InventoryGapReason, ProbeStep};
use sizetrail::fsx::ObjectMeasurements;
use sizetrail::model::{
    Advice, AdviceImpact, FileIdentity, FindingSubject, MeasurementQuantity, MeasurementValue,
};
use sizetrail::rules::{Mechanism, Preconditions, Recoverability, Rule, RuleSubjectPattern, Sensitivity};
use sizetrail::policy::{
    CommandOutput, InvocationTracker, PolicyError, ProbeId, ProbePolicy, ReadOnlyCommand,
};

const CONTEXT: &str = r#"[{"Name":"desktop-linux","Metadata":{},"Endpoints":{"docker":{"Host":"unix:///Users/fixture/.docker/run/docker.sock","SkipTLSVerify":false}},"TLSMaterial":{},"Storage":{"MetadataPath":"<IN MEMORY>","TLSPath":"<IN MEMORY>"}}]"#;
const VERSION_JSON: &str = r#"{"Client":{"Version":"29.7.2","ApiVersion":"1.55","Os":"darwin"},"Server":{"Platform":{"Name":"Docker Desktop 4.88.1 (237512)"},"Version":"29.7.2","ApiVersion":"1.55"}}"#;
const SYSTEM_DF_JSON: &str = "{\"Active\":\"2\",\"Reclaimable\":\"1.338GB (53%)\",\"Size\":\"2.498GB\",\"TotalCount\":\"11\",\"Type\":\"Images\"}
{\"Active\":\"1\",\"Reclaimable\":\"0B (0%)\",\"Size\":\"94.21kB\",\"TotalCount\":\"3\",\"Type\":\"Containers\"}
{\"Active\":\"1\",\"Reclaimable\":\"43.5MB (35%)\",\"Size\":\"124.3MB\",\"TotalCount\":\"4\",\"Type\":\"Local Volumes\"}
{\"Active\":\"0\",\"Reclaimable\":\"1.06GB\",\"Size\":\"1.06GB\",\"TotalCount\":\"27\",\"Type\":\"Build Cache\"}
";

const CONTEXT_ARGS: &[&str] = &["%s", CONTEXT];
const VERSION_ARGS: &[&str] = &["%s", VERSION_JSON];
const SYSTEM_DF_ARGS: &[&str] = &["%s", SYSTEM_DF_JSON];

/// Stands in for the process runner: `printf "%s" TEXT` prints TEXT, `true` and
/// `false` succeed and fail silently, `sleep` outlasts a shorter timeout, and any
/// other program cannot be started.
fn run(policy: &ProbePolicy) -> Result<CommandOutput, PolicyError> {
    let command = &policy.command;
    let printed = |text: &str| CommandOutput {
        success: true,
        stdout: text.as_bytes().to_vec(),
        stderr: Vec::new(),
    };
    match command.program {
        "/usr/bin/printf" => Ok(printed(command.arguments.last().copied().unwrap_or(""))),
        "/usr/bin/true" => Ok(printed("")),
        "/usr/bin/false" => Ok(CommandOutput { success: false, stdout: Vec::new(), stderr: Vec::new() }),
        "/bin/sleep" => {
            let seconds: u64 = command.arguments[0].parse().unwrap();
            if seconds * 1000 > command.timeout_millis {
                Err(PolicyError::TimedOut(policy.id))
            } else {
                Ok(printed(""))
            }
        }
        _ => Err(PolicyError::InvocationFailed(policy.id)),
    }
}

fn call(tracker: &mut InvocationTracker, id: ProbeId) -> Result<CommandOutput, PolicyError> {
    let policy = tracker.invoke(id)?;
    run(&policy)
}

fn probe_state(tracker: &mut InvocationTracker, home: &str) -> AdapterState {
    let mut step = probe(home);
    loop {
        match step {
            ProbeStep::Run { next, probe } => {
                let outcome = call(tracker, probe);
                step = next.resume(outcome);
            }
            ProbeStep::Finished(state) => return state,
        }
    }
}

fn summary(tracker: &mut InvocationTracker, state: &AdapterState) -> Result<Vec<DockerUsageRow>, InventoryGapReason> {
    let id = system_df(state)?;
    system_df_rows(call(tracker, id))
}

fn printf_policy(id: ProbeId, arguments: &'static [&'static str]) -> ProbePolicy {
    ProbePolicy {
        id,
        max_calls_per_scan: 1,
        disable_env: "SIZETRAIL_NO_DOCKER_PROBE_FIXTURE",
        known_side_effects: &[],
        command: ReadOnlyCommand {
            program: "/usr/bin/printf",
            arguments,
            environment: &[],
            remove_environment: &[],
            timeout_millis: 10_000,
        },
    }
}

fn policies(
    context: &'static [&'static str],
    version_args: &'static [&'static str],
    df: &'static [&'static str],
) -> [ProbePolicy; 3] {
    [
        printf_policy(context_inspect(), context),
        printf_policy(version(), version_args),
        printf_policy(system_df_probe(), df),
    ]
}

#[test]
fn verified_local_context_and_version_allow_one_summary_call() {
    let policies = policies(CONTEXT_ARGS, VERSION_ARGS, SYSTEM_DF_ARGS);
    let mut ctx = InvocationTracker::new(&policies);
    let state = probe_state(&mut ctx, "/Users/fixture");

    assert!(matches!(state, AdapterState::Ready { .. }));
    let rows = summary(&mut ctx, &state).expect("verified summary must parse");
    assert_eq!(rows.len(), 4);
    assert_eq!(rows[0].object_set_id, "docker.images");
    assert_eq!(rows[3].object_set_id, "docker.build_cache");
    assert_eq!(ctx.count(context_inspect()), 1);
    assert_eq!(ctx.count(version()), 1);
    assert_eq!(ctx.count(system_df_probe()), 1);
}

#[test]
fn remote_context_stops_before_any_daemon_connection() {
    const REMOTE: &str =
        r#"[{"Name":"desktop-linux","Endpoints":{"docker":{"Host":"ssh://builder.example"}}}]"#;
    const REMOTE_ARGS: &[&str] = &["%s", REMOTE];
    let policies = policies(REMOTE_ARGS, VERSION_ARGS, SYSTEM_DF_ARGS);
    let mut ctx = InvocationTracker::new(&policies);
    let state = probe_state(&mut ctx, "/Users/fixture");

    assert_eq!(
        state,
        AdapterState::Degraded {
            observed_version: None,
            reason: AdapterDegradedReason::InvalidSelection,
        }
    );
    assert!(summary(&mut ctx, &state).is_err());
    assert_eq!(ctx.count(context_inspect()), 1);
    assert_eq!(ctx.count(version()), 0);
    assert_eq!(ctx.count(system_df_probe()), 0);
}

#[test]
fn context_identity_rejects_every_nonlocal_or_tls_variant() {
    for (host, skip_tls_verify) in [
        ("tcp://127.0.0.1:2375", false),
        ("ssh://builder.example", false),
        ("unix:///var/run/docker.sock", false),
        ("unix:///Users/other/.docker/run/docker.sock", false),
        ("unix:///Users/fixture/.docker/run/docker.sock", true),
    ] {
        let context = format!(
            r#"[{{"Name":"desktop-linux","Endpoints":{{"docker":{{"Host":"{host}","SkipTLSVerify":{skip_tls_verify}}}}}}}]"#
        );
        assert!(!verified_context(context.as_bytes(), "/Users/fixture"));
    }
    assert!(verified_context(CONTEXT.as_bytes(), "/Users/fixture"));
}

#[test]
fn unknown_version_never_runs_system_df() {
    const UNKNOWN: &str = r#"{"Client":{"Version":"99.0.0","ApiVersion":"9.99"},"Server":{"Platform":{"Name":"Docker Desktop 99.0.0"},"Version":"99.0.0","ApiVersion":"9.99"}}"#;
    const UNKNOWN_ARGS: &[&str] = &["%s", UNKNOWN];
    let policies = policies(CONTEXT_ARGS, UNKNOWN_ARGS, SYSTEM_DF_ARGS);
    let mut ctx = InvocationTracker::new(&policies);
    let state = probe_state(&mut ctx, "/Users/fixture");

    assert!(matches!(
        state,
        AdapterState::Degraded {
            reason: AdapterDegradedReason::UnknownVersion,
            ..
        }
    ));
    assert!(summary(&mut ctx, &state).is_err());
    assert_eq!(ctx.count(context_inspect()), 1);
    assert_eq!(ctx.count(version()), 1);
    assert_eq!(ctx.count(system_df_probe()), 0);
}

#[test]
fn unknown_version_keeps_what_was_observed() {
    const UNKNOWN: &str = r#"{"Client":{"Version":"99.0.0","ApiVersion":"9.99"},"Server":{"Platform":{"Name":"Docker Desktop 99.0.0"},"Version":"99.0.0","ApiVersion":"9.99"}}"#;
    const UNKNOWN_ARGS: &[&str] = &["%s", UNKNOWN];
    let policies = policies(CONTEXT_ARGS, UNKNOWN_ARGS, SYSTEM_DF_ARGS);
    let mut ctx = InvocationTracker::new(&policies);
    let state = probe_state(&mut ctx, "/Users/fixture");
    assert_eq!(
        state,
        AdapterState::Degraded {
            observed_version: Some(
                "client 99.0.0 api 9.99; server 99.0.0 api 9.99; Docker Desktop 99.0.0".to_owned()
            ),
            reason: AdapterDegradedReason::UnknownVersion,
        }
    );
    assert_eq!(summary(&mut ctx, &state), Err(InventoryGapReason::UnknownVersion));
}

#[test]
fn ready_state_names_the_verified_combination() {
    let policies = policies(CONTEXT_ARGS, VERSION_ARGS, SYSTEM_DF_ARGS);
    let mut ctx = InvocationTracker::new(&policies);
    assert_eq!(
        probe_state(&mut ctx, "/Users/fixture"),
        AdapterState::Ready {
            version: "client 29.7.2 api 1.55; server 29.7.2 api 1.55; Docker Desktop 4.88.1 (237512)"
                .to_owned()
        }
    );
}

#[test]
fn missing_docker_is_not_present() {
    let mut policies = policies(CONTEXT_ARGS, VERSION_ARGS, SYSTEM_DF_ARGS);
    policies[0].command.program = "/nonexistent/docker";
    let mut ctx = InvocationTracker::new(&policies);
    let state = probe_state(&mut ctx, "/Users/fixture");
    assert_eq!(state, AdapterState::NotPresent);
    assert_eq!(summary(&mut ctx, &state), Err(InventoryGapReason::AbsentOrChanged));
    assert_eq!(ctx.count(version()), 0);
}

#[test]
fn malformed_or_nonzero_summary_is_a_typed_gap_without_retry() {
    const MALFORMED_ARGS: &[&str] = &["%s", "not-json\n"];
    let malformed = policies(CONTEXT_ARGS, VERSION_ARGS, MALFORMED_ARGS);
    let mut malformed_ctx = InvocationTracker::new(&malformed);
    let state = probe_state(&mut malformed_ctx, "/Users/fixture");
    assert!(summary(&mut malformed_ctx, &state).is_err());
    assert_eq!(malformed_ctx.count(system_df_probe()), 1);

    let mut nonzero = policies(CONTEXT_ARGS, VERSION_ARGS, SYSTEM_DF_ARGS);
    nonzero[2].command.program = "/usr/bin/false";
    nonzero[2].command.arguments = &[];
    let mut nonzero_ctx = InvocationTracker::new(&nonzero);
    let state = probe_state(&mut nonzero_ctx, "/Users/fixture");
    assert!(summary(&mut nonzero_ctx, &state).is_err());
    assert_eq!(nonzero_ctx.count(system_df_probe()), 1);
}

#[test]
fn disabled_or_timed_out_probes_are_typed_and_never_retried() {
    let mut disabled = policies(CONTEXT_ARGS, VERSION_ARGS, SYSTEM_DF_ARGS);
    disabled[0].disable_env = "PATH";
    let mut disabled_ctx = InvocationTracker::with_environment(&disabled, vec!["PATH".to_owned()]);
    assert_eq!(
        probe_state(&mut disabled_ctx, "/Users/fixture"),
        AdapterState::Degraded {
            observed_version: None,
            reason: AdapterDegradedReason::Disabled,
        }
    );
    assert_eq!(disabled_ctx.count(context_inspect()), 0);
    assert_eq!(disabled_ctx.count(version()), 0);
    assert_eq!(disabled_ctx.count(system_df_probe()), 0);

    let mut timed_out = policies(CONTEXT_ARGS, VERSION_ARGS, SYSTEM_DF_ARGS);
    timed_out[2].command.program = "/bin/sleep";
    timed_out[2].command.arguments = &["1"];
    timed_out[2].command.timeout_millis = 1;
    let mut timed_out_ctx = InvocationTracker::new(&timed_out);
    let state = probe_state(&mut timed_out_ctx, "/Users/fixture");
    assert_eq!(
        summary(&mut timed_out_ctx, &state),
        Err(InventoryGapReason::TimedOut)
    );
    assert_eq!(timed_out_ctx.count(system_df_probe()), 1);
    assert_eq!(
        summary(&mut timed_out_ctx, &state),
        Err(InventoryGapReason::ProbeFailed)
    );
    assert_eq!(timed_out_ctx.count(system_df_probe()), 1);
}

#[test]
fn summary_requires_the_exact_four_typed_rows_and_valid_vendor_numbers() {
    let missing = SYSTEM_DF_JSON
        .lines()
        .take(3)
        .collect::<Vec<_>>()
        .join("\n");
    let duplicate = format!(
        "{SYSTEM_DF_JSON}{}\n",
        SYSTEM_DF_JSON.lines().next().expect("images fixture row")
    );
    let unknown = SYSTEM_DF_JSON.replace("Build Cache", "Networks");
    let negative = SYSTEM_DF_JSON.replacen("\"11\"", "\"-1\"", 1);
    let overflow = SYSTEM_DF_JSON.replacen("\"11\"", "\"18446744073709551616\"", 1);
    let extra = format!("{SYSTEM_DF_JSON}docker diagnostic text\n");

    for invalid in [missing, duplicate, unknown, negative, overflow, extra] {
        assert_eq!(
            parse_system_df(invalid.as_bytes()),
            Err(InventoryGapReason::InvalidToolOutput)
        );
    }
    assert_eq!(
        parse_system_df(&[0xff]),
        Err(InventoryGapReason::InvalidToolOutput)
    );
}

#[test]
fn summary_rows_come_in_object_set_order_with_vendor_text_kept() {
    let reordered = SYSTEM_DF_JSON.lines().rev().collect::<Vec<_>>().join("\n");
    let rows = parse_system_df(reordered.as_bytes()).expect("reordered summary must parse");
    let ids = rows.iter().map(|row| row.object_set_id).collect::<Vec<_>>();
    assert_eq!(
        ids,
        ["docker.images", "docker.containers", "docker.volumes", "docker.build_cache"]
    );
    assert_eq!(rows[0].total_count, 11);
    assert_eq!(rows[0].active_count, 2);
    assert_eq!(rows[0].size, "2.498GB");
    assert_eq!(rows[0].reclaimable, "1.338GB (53%)");
    assert_eq!(rows[3].total_count, 27);
}

fn docker_rule(id: &str, subject: RuleSubjectPattern) -> Rule {
    Rule {
        id: id.to_owned(),
        adapter: "docker".to_owned(),
        title: id.to_owned(),
        description: "Docker store.".to_owned(),
        subjects: vec![subject],
        os: ">=13.0".to_owned(),
        mechanism: Mechanism::VendorManaged,
        recoverability: Recoverability::RedownloadBandwidth,
        sensitivity: Sensitivity::Medium,
        evidence: "Docker manages these objects.".to_owned(),
        fixture_id: id.replace('.', "-"),
        preconditions: Preconditions::default(),
        selection_override: None,
        override_reason: None,
    }
}

fn docker_rules() -> Vec<Rule> {
    let mut rules = ["docker.images", "docker.containers", "docker.volumes", "docker.build_cache"]
        .iter()
        .map(|id| docker_rule(id, RuleSubjectPattern::ToolchainObjectSet { object_set_id: (*id).to_owned() }))
        .collect::<Vec<_>>();
    rules.push(docker_rule(
        "docker.virtual_disk",
        RuleSubjectPattern::FilesystemPath {
            pattern: "~/Library/Containers/com.docker.docker/Data/vms/0/data/Docker.raw".to_owned(),
        },
    ));
    rules
}

#[test]
fn ready_summary_emits_four_object_sets_without_summing_or_subtracting() {
    let rows = parse_system_df(SYSTEM_DF_JSON.as_bytes()).expect("summary parses");
    let (items, gaps) = daemon_inventory(Ok(rows));
    assert_eq!(items.len(), 4);
    assert_eq!(gaps.len(), 1);
    assert_eq!(gaps[0].reason, InventoryGapReason::DaemonInventoryExcludesInactiveStore);
    for item in &items {
        assert!(matches!(
            item.subject,
            FindingSubject::ToolchainObjectSet { ref object_set_id } if object_set_id == &item.rule_id
        ));
        assert_eq!(
            item.measurements.iter().map(|m| m.quantity).collect::<Vec<_>>(),
            [
                MeasurementQuantity::ObjectCount,
                MeasurementQuantity::ActiveObjectCount,
                MeasurementQuantity::DaemonUsed,
                MeasurementQuantity::DaemonReclaimable,
            ]
        );
        assert!(item.measurements.iter().all(|m| !matches!(
            m.value,
            MeasurementValue::IntervalBytes { .. } | MeasurementValue::ExactBytes { .. }
        )));
    }
    assert!(matches!(
        items[0].measurements[2].value,
        MeasurementValue::RoundedBytes { lower_bound_bytes: 2_497_000_000, upper_bound_bytes: 2_499_000_000, .. }
    ));
    assert!(matches!(items[0].measurements[0].value, MeasurementValue::ExactCount { count: 11 }));

    let (none, failed) = daemon_inventory(Err(InventoryGapReason::TimedOut));
    assert!(none.is_empty());
    assert_eq!(failed[0].reason, InventoryGapReason::TimedOut);
}

#[test]
fn docker_advice_keeps_host_disk_and_user_state_from_being_treated_as_cleanup() {
    let rows = parse_system_df(SYSTEM_DF_JSON.as_bytes()).expect("summary parses");
    let (mut items, _) = daemon_inventory(Ok(rows));
    let disk = ObjectMeasurements {
        identity: FileIdentity { fsid: [1, 2], fileid: 3 },
        logical_bytes: 64 * 1024 * 1024 * 1024,
        link_count: 1,
        allocated_bytes: Some(8 * 1024 * 1024),
        data_allocated_bytes: Some(8 * 1024 * 1024),
        resource_fork_allocated_bytes: Some(0),
        private_bytes: Some(8 * 1024 * 1024),
        extended_flags: Some(0),
        bsd_flags: 0,
        dataless: false,
    };
    let path = "/Users/fixture/Library/Containers/com.docker.docker/Data/vms/0/data/Docker.raw";
    items.push(disk_item(&disk, true, "/Users/fixture", path).expect("regular file measures"));
    let adapter = DockerAdapter::new(docker_rules());
    let findings = adapter
        .docker_classify(&Inventory { items, gaps: Vec::new(), warnings: Vec::new() })
        .expect("classified Docker findings must exist");
    assert_eq!(findings.len(), 5);
    for finding in &findings {
        for advice in &finding.advice {
            if let Advice::Command(command) = advice {
                for forbidden in ["--force", "--yes", "|", "sudo "] {
                    assert!(!command.display_command.contains(forbidden));
                }
            }
        }
    }
    let by_rule = |id: &str| findings.iter().find(|finding| finding.rule_id == id).expect("finding");
    assert!(matches!(
        by_rule("docker.virtual_disk").advice.as_slice(),
        [Advice::Reveal(reveal)]
        if reveal.normalized_path.ends_with("Docker.raw")
            && reveal.recovery_semantics.contains("safe deletion target")
    ));
    assert!(matches!(
        by_rule("docker.images").advice.as_slice(),
        [Advice::Command(command)]
        if command.display_command == "docker --context desktop-linux image prune"
            && command.impact == AdviceImpact::Destructive
            && !command.reliable_preview_available
    ));
    assert!(matches!(
        by_rule("docker.containers").advice.as_slice(),
        [Advice::Command(command)]
        if command.display_command == "docker --context desktop-linux ps -a"
            && command.impact == AdviceImpact::Inspect
            && command.reliable_preview_available
    ));
    assert!(matches!(
        by_rule("docker.volumes").advice.as_slice(),
        [Advice::Command(command)]
        if command.display_command == "docker --context desktop-linux system prune --volumes"
            && command.explanation.contains("not a recommended one-click next step")
    ));
}

#[test]
fn host_disk_images_are_chosen_only_when_unambiguous() {
    assert_eq!(choose_disk_image(0, true), Ok(None));
    assert_eq!(choose_disk_image(1, false), Ok(Some(0)));
    assert_eq!(choose_disk_image(2, true), Ok(Some(0)));
    assert_eq!(choose_disk_image(2, false), Err(()));
    assert_eq!(
        parse_data_folder(br#"{"DataFolder":"/Volumes/External/Docker"}"#, "DataFolder").as_deref(),
        Some("/Volumes/External/Docker")
    );
    assert_eq!(parse_data_folder(br#"{"DataFolder":"relative"}"#, "DataFolder"), None);
    assert_eq!(parse_data_folder(b"not json", "DataFolder"), None);
}

#[test]
fn not_present_never_runs_system_df() {
    let mut policies = policies(CONTEXT_ARGS, VERSION_ARGS, SYSTEM_DF_ARGS);
    policies[0].command.program = "/nonexistent/docker";
    let mut ctx = InvocationTracker::new(&policies);
    let state = probe_state(&mut ctx, "/Users/fixture");
    assert_eq!(state, AdapterState::NotPresent);
    assert_eq!(system_df(&state), Err(InventoryGapReason::AbsentOrChanged));
    let (items, gaps) = daemon_inventory(system_df(&state).and_then(|id| system_df_rows(call(&mut ctx, id))));
    assert!(items.is_empty());
    assert_eq!(gaps[0].reason, InventoryGapReason::AbsentOrChanged);
    assert_eq!(ctx.count(system_df_probe()), 0);
}

#[test]
fn summary_rows_are_one_per_object_set_through_the_probe_outcome() {
    let output = CommandOutput { success: true, stdout: SYSTEM_DF_JSON.as_bytes().to_vec(), stderr: Vec::new() };
    let rows = system_df_rows(Ok(output)).expect("the verified summary parses");
    let ids = rows.iter().map(|row| row.object_set_id).collect::<Vec<_>>();
    assert_eq!(ids, ["docker.images", "docker.containers", "docker.volumes", "docker.build_cache"]);
    assert_eq!(rows[1].total_count, 3);
    assert_eq!(rows[2].size, "124.3MB");
    let (items, _) = daemon_inventory(Ok(rows));
    let sets = items.iter().map(|item| item.rule_id.as_str()).collect::<Vec<_>>();
    assert_eq!(sets, ["docker.images", "docker.containers", "docker.volumes", "docker.build_cache"]);
}
