use sizetrail::policy::{
    docker_system_df, side_effect_registry, xcode_select_developer_dir, InvocationTracker,
    PolicyError, ProbeId, ProbePolicy, ReadOnlyCommand,
};

fn policy(id: ProbeId, max_calls_per_scan: usize) -> ProbePolicy {
    ProbePolicy {
        id,
        max_calls_per_scan,
        disable_env: "SIZETRAIL_NO_FIXTURE_PROBE",
        known_side_effects: &[],
        command: ReadOnlyCommand {
            program: "/usr/bin/true",
            arguments: &[],
            environment: &[],
            remove_environment: &[],
            timeout_millis: 1_000,
        },
    }
}

#[test]
fn undeclared_probes_are_refused_and_never_counted() {
    let policies = [policy(xcode_select_developer_dir(), 1)];
    let mut tracker = InvocationTracker::new(&policies);
    assert_eq!(
        tracker.invoke(docker_system_df()).map(|p| p.id),
        Err(PolicyError::UndeclaredProbe(docker_system_df()))
    );
    assert_eq!(tracker.count(docker_system_df()), 0);
}

#[test]
fn calls_stop_at_the_declared_limit() {
    let policies = [policy(xcode_select_developer_dir(), 2)];
    let mut tracker = InvocationTracker::new(&policies);
    assert!(tracker.invoke(xcode_select_developer_dir()).is_ok());
    assert!(tracker.invoke(xcode_select_developer_dir()).is_ok());
    assert_eq!(
        tracker.invoke(xcode_select_developer_dir()).map(|p| p.id),
        Err(PolicyError::CallLimitExceeded(xcode_select_developer_dir()))
    );
    assert_eq!(tracker.count(xcode_select_developer_dir()), 2);
}

#[test]
fn a_set_switch_disables_its_probe_without_counting() {
    let policies = [policy(xcode_select_developer_dir(), 1)];
    let mut tracker = InvocationTracker::with_environment(
        &policies,
        vec!["HOME".to_owned(), "SIZETRAIL_NO_FIXTURE_PROBE".to_owned()],
    );
    assert_eq!(
        tracker.invoke(xcode_select_developer_dir()).map(|p| p.id),
        Err(PolicyError::Disabled(xcode_select_developer_dir()))
    );
    assert_eq!(tracker.count(xcode_select_developer_dir()), 0);
    assert_eq!(
        PolicyError::Disabled(xcode_select_developer_dir()).message(),
        "probe disabled by environment: xcode.select_developer_dir"
    );
}

#[test]
fn the_registry_declares_each_probe_once_with_absolute_programs() {
    let registry = side_effect_registry();
    let ids = registry.iter().map(|policy| policy.id.as_str()).collect::<Vec<_>>();
    assert_eq!(
        ids,
        [
            "xcode.select_developer_dir",
            "xcode.xcodebuild_version",
            "xcode.first_launch_status",
            "xcode.core_simulator_version",
            "xcode.simctl_devices",
            "xcode.simctl_runtimes",
            "docker.context_inspect",
            "docker.version",
            "docker.system_df",
            "go.homebrew_version",
            "go.pkg_version",
        ]
    );
    for policy in &registry {
        assert_eq!(policy.max_calls_per_scan, 1);
        assert!(policy.command.program.starts_with('/'));
        assert!(!policy.command.arguments.iter().any(|argument| argument.contains("runFirstLaunch")));
    }
    let tracker = InvocationTracker::new(&registry);
    for policy in &registry {
        assert_eq!(tracker.count(policy.id), 0);
    }
}
