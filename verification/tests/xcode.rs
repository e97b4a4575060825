use sizetrail::adapters::xcode::{
    first_launch_status, io_gap, probe, select_developer_dir, xcodebuild_version,
};
use sizetrail::adapters::{
    AdapterDegradedReason, AdapterState, InventoryGapReason, InventoryStage, ProbeStep,
};
use sizetrail::policy::{
    CommandOutput, InvocationTracker, PolicyError, ProbeId, ProbePolicy, ReadOnlyCommand,
};

/// Stands in for the process runner: `printf TEXT` prints TEXT, `true` and `false`
/// succeed and fail silently, and any other program cannot be started.
fn run(policy: &ProbePolicy) -> Result<CommandOutput, PolicyError> {
    let command = &policy.command;
    match command.program {
        "/usr/bin/printf" => Ok(CommandOutput {
            success: true,
            stdout: command.arguments.last().copied().unwrap_or("").as_bytes().to_vec(),
            stderr: Vec::new(),
        }),
        "/usr/bin/true" => Ok(CommandOutput { success: true, stdout: Vec::new(), stderr: Vec::new() }),
        "/usr/bin/false" => Ok(CommandOutput { success: false, stdout: Vec::new(), stderr: Vec::new() }),
        _ => Err(PolicyError::InvocationFailed(policy.id)),
    }
}

fn probe_state(tracker: &mut InvocationTracker) -> AdapterState {
    let mut step = probe();
    loop {
        match step {
            ProbeStep::Run { next, probe } => {
                let outcome = tracker.invoke(probe).and_then(|policy| run(&policy));
                step = next.resume(outcome);
            }
            ProbeStep::Finished(state) => return state,
        }
    }
}

fn policy(id: ProbeId, program: &'static str, arguments: &'static [&'static str]) -> ProbePolicy {
    ProbePolicy {
        id,
        max_calls_per_scan: 1,
        disable_env: "SIZETRAIL_NO_XCODE_PROBE_FIXTURE",
        known_side_effects: &[],
        command: ReadOnlyCommand {
            program,
            arguments,
            environment: &[],
            remove_environment: &[],
            timeout_millis: 10_000,
        },
    }
}

fn policies(select: ProbePolicy, version: &'static [&'static str]) -> [ProbePolicy; 3] {
    [
        select,
        policy(xcodebuild_version(), "/usr/bin/printf", version),
        policy(first_launch_status(), "/usr/bin/true", &[]),
    ]
}

#[test]
fn missing_xcode_is_not_present_and_does_not_run_the_version_probe() {
    let absent = policies(
        policy(select_developer_dir(), "/usr/bin/false", &[]),
        &["Xcode 26.0\nBuild version Fixture\n"],
    );
    let mut ctx = InvocationTracker::new(&absent);

    assert_eq!(probe_state(&mut ctx), AdapterState::NotPresent);
    assert_eq!(ctx.count(select_developer_dir()), 1);
    assert_eq!(ctx.count(xcodebuild_version()), 0);
    assert_eq!(ctx.count(first_launch_status()), 0);
}

#[test]
fn an_unverified_xcode_version_degrades_after_both_registered_probes_run() {
    let unknown = policies(
        policy(
            select_developer_dir(),
            "/usr/bin/printf",
            &["/Applications/Xcode.app/Contents/Developer\n"],
        ),
        &["Xcode 999.0\nBuild version Fixture\n"],
    );
    let mut ctx = InvocationTracker::new(&unknown);

    assert_eq!(
        probe_state(&mut ctx),
        AdapterState::Degraded {
            observed_version: Some("999.0 (Fixture)".to_owned()),
            reason: AdapterDegradedReason::UnknownVersion,
        }
    );
    assert_eq!(ctx.count(select_developer_dir()), 1);
    assert_eq!(ctx.count(xcodebuild_version()), 1);
    assert_eq!(ctx.count(first_launch_status()), 0);
}

#[test]
fn command_line_tools_alone_are_not_xcode() {
    let tools = policies(
        policy(select_developer_dir(), "/usr/bin/printf", &["/Library/Developer/CommandLineTools\n"]),
        &["Xcode 16.4\nBuild version 16F6\n"],
    );
    let mut ctx = InvocationTracker::new(&tools);
    assert_eq!(probe_state(&mut ctx), AdapterState::NotPresent);
    assert_eq!(ctx.count(xcodebuild_version()), 0);
}

#[test]
fn a_verified_xcode_is_ready_after_its_first_launch_check() {
    let verified = policies(
        policy(
            select_developer_dir(),
            "/usr/bin/printf",
            &["/Applications/Xcode.app/Contents/Developer\n"],
        ),
        &["Xcode 16.4\nBuild version 16F6\n"],
    );
    let mut ctx = InvocationTracker::new(&verified);
    assert_eq!(
        probe_state(&mut ctx),
        AdapterState::Ready { version: "16.4 (16F6)".to_owned() }
    );
    assert_eq!(ctx.count(first_launch_status()), 1);
}

#[test]
fn target_errors_preserve_stage_and_errno_without_claiming_fda() {
    for (errno, reason) in [
        (2, InventoryGapReason::AbsentOrChanged),
        (13, InventoryGapReason::AccessDenied),
        (1, InventoryGapReason::PolicyDeniedUnknown),
    ] {
        let gap = io_gap(
            "xcode.fixture",
            "/fixture/target",
            InventoryStage::ListDirectory,
            Some(errno),
        );

        assert_eq!(gap.reason, reason);
        assert_eq!(gap.stage, Some(InventoryStage::ListDirectory));
        assert_eq!(gap.errno, Some(errno));
    }
}
