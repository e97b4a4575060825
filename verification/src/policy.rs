//! The admission of every external command: each probe is declared once with its
//! command, its per-scan call limit and the environment variable that turns it
//! off, and no command runs unless the tracker admitted it.

use vstd::prelude::*;

use crate::text::{chars_of, extend_chars, str_eq, string_of};

verus! {

/// The name of a declared probe.
#[derive(Clone, Copy, Debug, Eq, Ord, PartialEq, PartialOrd)]
pub struct ProbeId(&'static str);

impl View for ProbeId {
    type V = Seq<char>;

    closed spec fn view(&self) -> Seq<char> {
        self.0@
    }
}

impl ProbeId {
    pub fn new(id: &'static str) -> (r: Self)
        ensures
            r@ == id@,
    {
        ProbeId(id)
    }

    pub fn as_str(self) -> (r: &'static str)
        ensures
            r@ == self@,
    {
        self.0
    }
}

/// The probe names that the adapters submit. Each is a function because a constant
/// of this crate holds only literals.
pub fn docker_context_inspect() -> (r: ProbeId)
    ensures
        r@ == "docker.context_inspect"@,
{
    ProbeId("docker.context_inspect")
}

pub fn docker_version() -> (r: ProbeId)
    ensures
        r@ == "docker.version"@,
{
    ProbeId("docker.version")
}

pub fn docker_system_df() -> (r: ProbeId)
    ensures
        r@ == "docker.system_df"@,
{
    ProbeId("docker.system_df")
}

pub fn xcode_select_developer_dir() -> (r: ProbeId)
    ensures
        r@ == "xcode.select_developer_dir"@,
{
    ProbeId("xcode.select_developer_dir")
}

pub fn xcode_xcodebuild_version() -> (r: ProbeId)
    ensures
        r@ == "xcode.xcodebuild_version"@,
{
    ProbeId("xcode.xcodebuild_version")
}

pub fn xcode_first_launch_status() -> (r: ProbeId)
    ensures
        r@ == "xcode.first_launch_status"@,
{
    ProbeId("xcode.first_launch_status")
}

pub fn xcode_core_simulator_version() -> (r: ProbeId)
    ensures
        r@ == "xcode.core_simulator_version"@,
{
    ProbeId("xcode.core_simulator_version")
}

pub fn xcode_simctl_devices() -> (r: ProbeId)
    ensures
        r@ == "xcode.simctl_devices"@,
{
    ProbeId("xcode.simctl_devices")
}

pub fn xcode_simctl_runtimes() -> (r: ProbeId)
    ensures
        r@ == "xcode.simctl_runtimes"@,
{
    ProbeId("xcode.simctl_runtimes")
}

pub fn go_homebrew_version() -> (r: ProbeId)
    ensures
        r@ == "go.homebrew_version"@,
{
    ProbeId("go.homebrew_version")
}

pub fn go_pkg_version() -> (r: ProbeId)
    ensures
        r@ == "go.pkg_version"@,
{
    ProbeId("go.pkg_version")
}

/// A fixed, read-only command line: an absolute program, its arguments, the
/// environment it adds and removes, and a hard timeout.
#[derive(Clone, Copy, Debug)]
pub struct ReadOnlyCommand {
    pub program: &'static str,
    pub arguments: &'static [&'static str],
    pub environment: &'static [(&'static str, &'static str)],
    pub remove_environment: &'static [&'static str],
    pub timeout_millis: u64,
}

/// The declaration of one probe.
#[derive(Clone, Copy, Debug)]
pub struct ProbePolicy {
    pub id: ProbeId,
    pub max_calls_per_scan: usize,
    pub disable_env: &'static str,
    pub known_side_effects: &'static [&'static str],
    pub command: ReadOnlyCommand,
}

#[derive(Clone, Copy, Debug, Eq, PartialEq)]
pub enum PolicyError {
    UndeclaredProbe(ProbeId),
    Disabled(ProbeId),
    CallLimitExceeded(ProbeId),
    TimedOut(ProbeId),
    InvocationFailed(ProbeId),
}

pub open spec fn policy_error_text(e: PolicyError) -> Seq<char> {
    match e {
        PolicyError::UndeclaredProbe(id) => "undeclared probe: "@ + id@,
        PolicyError::Disabled(id) => "probe disabled by environment: "@ + id@,
        PolicyError::CallLimitExceeded(id) => "probe call limit exceeded: "@ + id@,
        PolicyError::TimedOut(id) => "probe timed out: "@ + id@,
        PolicyError::InvocationFailed(id) => "probe could not be started: "@ + id@,
    }
}

impl PolicyError {
    /// The message that names the failure and the probe.
    pub fn message(&self) -> (r: String)
        ensures
            r@ == policy_error_text(*self),
    {
        let (prefix, id) = match self {
            PolicyError::UndeclaredProbe(id) => ("undeclared probe: ", id),
            PolicyError::Disabled(id) => ("probe disabled by environment: ", id),
            PolicyError::CallLimitExceeded(id) => ("probe call limit exceeded: ", id),
            PolicyError::TimedOut(id) => ("probe timed out: ", id),
            PolicyError::InvocationFailed(id) => ("probe could not be started: ", id),
        };
        let mut out = chars_of(prefix);
        let tail = chars_of(id.as_str());
        extend_chars(&mut out, tail.as_slice());
        string_of(out.as_slice())
    }
}

/// What a finished command handed back.
#[derive(Clone, Debug)]
pub struct CommandOutput {
    pub success: bool,
    pub stdout: Vec<u8>,
    pub stderr: Vec<u8>,
}

/// The index of the first policy declared under `id`, or the number of policies.
pub open spec fn policy_index(policies: Seq<ProbePolicy>, id: Seq<char>) -> int
    decreases policies.len(),
{
    if policies.len() == 0 {
        0
    } else if policies[0].id@ == id {
        0
    } else {
        1 + policy_index(policies.drop_first(), id)
    }
}

pub proof fn lemma_policy_index(policies: Seq<ProbePolicy>, id: Seq<char>)
    ensures
        0 <= policy_index(policies, id) <= policies.len(),
        policy_index(policies, id) < policies.len() ==> policies[policy_index(policies, id)].id@
            == id,
        forall|j: int| 0 <= j < policy_index(policies, id) ==> policies[j].id@ != id,
    decreases policies.len(),
{
    if policies.len() > 0 && policies[0].id@ != id {
        let rest = policies.drop_first();
        lemma_policy_index(rest, id);
        assert forall|j: int| 0 <= j < policy_index(policies, id) implies policies[j].id@ != id by {
            if j > 0 {
                assert(policies[j] == rest[j - 1]);
            }
        }
    }
}

/// Counts the calls of each declared probe in one scan and refuses a call that is
/// undeclared, turned off by its environment variable, or over its limit.
pub struct InvocationTracker {
    policies: Vec<ProbePolicy>,
    set_variables: Vec<String>,
    counts: Vec<usize>,
}

impl InvocationTracker {
    pub closed spec fn policies(&self) -> Seq<ProbePolicy> {
        self.policies@
    }

    /// The names of the environment variables that are set.
    pub closed spec fn environment(&self) -> Seq<Seq<char>> {
        self.set_variables@.map_values(|s: String| s@)
    }

    /// The calls admitted so far, per declared policy.
    pub closed spec fn calls(&self) -> Seq<nat> {
        self.counts@.map_values(|c: usize| c as nat)
    }

    /// Every declared probe has a count, and no count exceeds its probe's limit.
    pub open spec fn wf(&self) -> bool {
        &&& self.calls().len() == self.policies().len()
        &&& forall|i: int|
            0 <= i < self.calls().len() ==> #[trigger] self.calls()[i]
                <= self.policies()[i].max_calls_per_scan
    }

    /// The calls admitted under `id`: those of the first policy declared under it.
    pub open spec fn calls_of(&self, id: Seq<char>) -> nat {
        let k = policy_index(self.policies(), id);
        if k < self.policies().len() {
            self.calls()[k]
        } else {
            0
        }
    }

    pub open spec fn disabled(&self, policy: ProbePolicy) -> bool {
        self.environment().contains(policy.disable_env@)
    }

    /// A tracker with no call made, in an environment where none of the names is set.
    pub fn new(policies: &[ProbePolicy]) -> (r: Self)
        ensures
            r.wf(),
            r.policies() == policies@,
            r.environment() == Seq::<Seq<char>>::empty(),
            forall|i: int| 0 <= i < policies@.len() ==> r.calls()[i] == 0,
            r.calls().len() == policies@.len(),
    {
        InvocationTracker::with_environment(policies, Vec::new())
    }

    /// A tracker with no call made, in an environment where exactly the names in
    /// `set_variables` are set.
    pub fn with_environment(policies: &[ProbePolicy], set_variables: Vec<String>) -> (r: Self)
        ensures
            r.wf(),
            r.policies() == policies@,
            r.environment() == set_variables@.map_values(|s: String| s@),
            forall|i: int| 0 <= i < policies@.len() ==> r.calls()[i] == 0,
            r.calls().len() == policies@.len(),
    {
        let mut copied: Vec<ProbePolicy> = Vec::new();
        let mut counts: Vec<usize> = Vec::new();
        let mut i: usize = 0;
        while i < policies.len()
            invariant
                i <= policies.len(),
                copied@ == policies@.subrange(0, i as int),
                counts@.len() == i,
                forall|j: int| 0 <= j < i ==> counts@[j] == 0,
            decreases policies.len() - i,
        {
            copied.push(policies[i]);
            counts.push(0);
            i = i + 1;
            assert(copied@ =~= policies@.subrange(0, i as int));
        }
        assert(copied@ =~= policies@);
        InvocationTracker { policies: copied, set_variables, counts }
    }

    fn find(&self, id: ProbeId) -> (r: usize)
        ensures
            r == policy_index(self.policies(), id@),
    {
        proof {
            lemma_policy_index(self.policies@, id@);
        }
        let mut i: usize = 0;
        while i < self.policies.len()
            invariant
                i <= self.policies@.len(),
                forall|j: int| 0 <= j < i ==> self.policies@[j].id@ != id@,
            decreases self.policies.len() - i,
        {
            if str_eq(self.policies[i].id.as_str(), id.as_str()) {
                proof {
                    lemma_first_match(self.policies@, id@, i as int);
                }
                return i;
            }
            i = i + 1;
        }
        proof {
            lemma_first_match(self.policies@, id@, i as int);
        }
        i
    }

    fn is_set(&self, name: &str) -> (r: bool)
        ensures
            r == self.environment().contains(name@),
    {
        let mut i: usize = 0;
        while i < self.set_variables.len()
            invariant
                i <= self.set_variables@.len(),
                forall|j: int| 0 <= j < i ==> self.set_variables@[j]@ != name@,
            decreases self.set_variables.len() - i,
        {
            if str_eq(self.set_variables[i].as_str(), name) {
                assert(self.environment()[i as int] == name@);
                return true;
            }
            i = i + 1;
        }
        assert forall|j: int| 0 <= j < self.environment().len() implies self.environment()[j]
            != name@ by {
            assert(self.environment()[j] == self.set_variables@[j]@);
        }
        false
    }

    /// Admits one call of the probe declared under `id`, or refuses it: undeclared
    /// when no policy has that name, disabled when the first such policy's variable
    /// is set, over the limit when its calls have reached the limit. An admitted
    /// call is counted; a refused one changes nothing.
    pub fn invoke(&mut self, id: ProbeId) -> (r: Result<ProbePolicy, PolicyError>)
        requires
            old(self).wf(),
        ensures
            final(self).wf(),
            final(self).policies() == old(self).policies(),
            final(self).environment() == old(self).environment(),
            ({
                let k = policy_index(old(self).policies(), id@);
                if k >= old(self).policies().len() {
                    &&& r == Err::<ProbePolicy, PolicyError>(PolicyError::UndeclaredProbe(id))
                    &&& final(self).calls() == old(self).calls()
                } else if old(self).disabled(old(self).policies()[k]) {
                    &&& r == Err::<ProbePolicy, PolicyError>(PolicyError::Disabled(id))
                    &&& final(self).calls() == old(self).calls()
                } else if old(self).calls()[k] >= old(self).policies()[k].max_calls_per_scan {
                    &&& r == Err::<ProbePolicy, PolicyError>(PolicyError::CallLimitExceeded(id))
                    &&& final(self).calls() == old(self).calls()
                } else {
                    &&& r == Ok::<ProbePolicy, PolicyError>(old(self).policies()[k])
                    &&& final(self).calls() == old(self).calls().update(
                        k,
                        old(self).calls()[k] + 1,
                    )
                }
            }),
    {
        let k = self.find(id);
        if k >= self.policies.len() {
            return Err(PolicyError::UndeclaredProbe(id));
        }
        let policy = self.policies[k];
        if self.is_set(policy.disable_env) {
            return Err(PolicyError::Disabled(id));
        }
        let count = self.counts[k];
        if count >= policy.max_calls_per_scan {
            return Err(PolicyError::CallLimitExceeded(id));
        }
        self.counts.set(k, count + 1);
        assert(self.calls() =~= old(self).calls().update(k as int, old(self).calls()[k as int] + 1));
        Ok(policy)
    }

    /// The calls admitted under `id` so far: never more than its policy's limit, and
    /// none for an undeclared probe.
    pub fn count(&self, id: ProbeId) -> (r: usize)
        requires
            self.wf(),
        ensures
            r == self.calls_of(id@),
            policy_index(self.policies(), id@) < self.policies().len() ==> r <= self.policies()[policy_index(
                self.policies(),
                id@,
            )].max_calls_per_scan,
            policy_index(self.policies(), id@) >= self.policies().len() ==> r == 0,
    {
        let k = self.find(id);
        proof {
            lemma_calls_within_limits(*self, id@);
        }
        if k < self.counts.len() && k < self.policies.len() {
            self.counts[k]
        } else {
            proof {
                lemma_policy_index(self.policies@, id@);
            }
            0
        }
    }
}

proof fn lemma_first_match(policies: Seq<ProbePolicy>, id: Seq<char>, i: int)
    requires
        0 <= i <= policies.len(),
        forall|j: int| 0 <= j < i ==> policies[j].id@ != id,
        i == policies.len() || policies[i].id@ == id,
    ensures
        policy_index(policies, id) == i,
    decreases i,
{
    if i > 0 {
        let rest = policies.drop_first();
        assert forall|j: int| 0 <= j < i - 1 implies rest[j].id@ != id by {
            assert(rest[j] == policies[j + 1]);
        }
        if i < policies.len() {
            assert(rest[i - 1] == policies[i]);
        }
        lemma_first_match(rest, id, i - 1);
    }
}

/// A call is never admitted past the limit of the policy it counts against, and a
/// probe that is undeclared has no calls.
pub proof fn lemma_calls_within_limits(tracker: InvocationTracker, id: Seq<char>)
    requires
        tracker.wf(),
    ensures
        policy_index(tracker.policies(), id) < tracker.policies().len() ==> tracker.calls_of(id)
            <= tracker.policies()[policy_index(tracker.policies(), id)].max_calls_per_scan,
        policy_index(tracker.policies(), id) >= tracker.policies().len() ==> tracker.calls_of(id)
            == 0,
{
    lemma_policy_index(tracker.policies(), id);
    let k = policy_index(tracker.policies(), id);
    if k < tracker.policies().len() {
        assert(tracker.calls()[k] == tracker.counts@[k] as nat);
    }
}


/// The names of the registered probes, in registry order.
pub open spec fn registry_ids() -> Seq<Seq<char>> {
    seq![
        "xcode.select_developer_dir"@,
        "xcode.xcodebuild_version"@,
        "xcode.first_launch_status"@,
        "xcode.core_simulator_version"@,
        "xcode.simctl_devices"@,
        "xcode.simctl_runtimes"@,
        "docker.context_inspect"@,
        "docker.version"@,
        "docker.system_df"@,
        "go.homebrew_version"@,
        "go.pkg_version"@,
    ]
}

fn fixed_command(
    program: &'static str,
    arguments: &'static [&'static str],
    remove_environment: &'static [&'static str],
    timeout_millis: u64,
) -> (r: ReadOnlyCommand)
    ensures
        r.program == program,
        r.arguments == arguments,
        r.remove_environment == remove_environment,
        r.timeout_millis == timeout_millis,
{
    ReadOnlyCommand { program, arguments, environment: &[("LC_ALL", "C")], remove_environment, timeout_millis }
}

fn once(
    id: ProbeId,
    disable_env: &'static str,
    known_side_effects: &'static [&'static str],
    command: ReadOnlyCommand,
) -> (r: ProbePolicy)
    ensures
        r.id == id,
        r.max_calls_per_scan == 1,
        r.disable_env == disable_env,
        r.command == command,
{
    ProbePolicy { id, max_calls_per_scan: 1, disable_env, known_side_effects, command }
}

/// Every probe a scan may run: a fixed absolute command that reads, admitted at
/// most once per scan, turned off by its adapter's switch, stopped at its timeout,
/// and listed with the side effects it is known to have.
pub fn side_effect_registry() -> (r: Vec<ProbePolicy>)
    ensures
        r@.len() == registry_ids().len(),
        forall|i: int|
            0 <= i < r@.len() ==> (#[trigger] r@[i]).id@ == registry_ids()[i]
                && r@[i].max_calls_per_scan == 1,
{
    let xcode_env: &'static [&'static str] = &[
        "DEVELOPER_DIR",
        "SDKROOT",
        "TOOLCHAINS",
        "xcrun_log",
        "xcrun_verbose",
        "xcrun_nocache",
    ];
    let docker_env: &'static [&'static str] = &[
        "DOCKER_HOST",
        "DOCKER_CONTEXT",
        "DOCKER_CONFIG",
        "DOCKER_API_VERSION",
        "DOCKER_CERT_PATH",
        "DOCKER_TLS_VERIFY",
    ];
    let go_env: &'static [&'static str] = &["GOENV", "GOFLAGS", "GOTOOLCHAIN"];
    let simctl = "/Library/Developer/PrivateFrameworks/CoreSimulator.framework/Versions/A/Resources/bin/simctl";
    let docker = "/Applications/Docker.app/Contents/Resources/bin/docker";
    let mut r: Vec<ProbePolicy> = Vec::new();
    r.push(
        once(
            xcode_select_developer_dir(),
            "SIZETRAIL_NO_XCODE_PROBE",
            &[],
            fixed_command("/usr/bin/xcode-select", &["-p"], xcode_env, 10_000),
        ),
    );
    r.push(
        once(
            xcode_xcodebuild_version(),
            "SIZETRAIL_NO_XCODE_PROBE",
            &[],
            fixed_command("/usr/bin/xcodebuild", &["-version"], xcode_env, 10_000),
        ),
    );
    r.push(
        once(
            xcode_first_launch_status(),
            "SIZETRAIL_NO_XCODE_PROBE",
            &[],
            fixed_command("/usr/bin/xcodebuild", &["-checkFirstLaunchStatus"], xcode_env, 10_000),
        ),
    );
    r.push(
        once(
            xcode_core_simulator_version(),
            "SIZETRAIL_NO_XCODE_PROBE",
            &[],
            fixed_command(
                "/usr/libexec/PlistBuddy",
                &[
                    "-c",
                    "Print :CFBundleVersion",
                    "/Library/Developer/PrivateFrameworks/CoreSimulator.framework/Versions/A/Resources/Info.plist",
                ],
                xcode_env,
                10_000,
            ),
        ),
    );
    r.push(
        once(
            xcode_simctl_devices(),
            "SIZETRAIL_NO_XCODE_PROBE",
            &["may start or connect to CoreSimulatorService and simdiskimaged"],
            fixed_command(simctl, &["list", "--json", "devices"], xcode_env, 30_000),
        ),
    );
    r.push(
        once(
            xcode_simctl_runtimes(),
            "SIZETRAIL_NO_XCODE_PROBE",
            &["may start or connect to CoreSimulatorService and simdiskimaged"],
            fixed_command(simctl, &["list", "--json", "runtimes"], xcode_env, 30_000),
        ),
    );
    r.push(
        once(
            docker_context_inspect(),
            "SIZETRAIL_NO_DOCKER_PROBE",
            &["reads the Docker CLI user configuration"],
            fixed_command(docker, &["context", "inspect", "desktop-linux"], docker_env, 10_000),
        ),
    );
    r.push(
        once(
            docker_version(),
            "SIZETRAIL_NO_DOCKER_PROBE",
            &["connects to the daemon and may wake Resource Saver"],
            fixed_command(
                docker,
                &["--context", "desktop-linux", "version", "--format", "json"],
                docker_env,
                15_000,
            ),
        ),
    );
    r.push(
        once(
            docker_system_df(),
            "SIZETRAIL_NO_DOCKER_PROBE",
            &["may wake the VM and walks image, container and volume filesystems"],
            fixed_command(
                docker,
                &["--context", "desktop-linux", "system", "df", "--format", "json"],
                docker_env,
                120_000,
            ),
        ),
    );
    r.push(
        once(
            go_homebrew_version(),
            "SIZETRAIL_NO_GO_PROBE",
            &[],
            fixed_command("/opt/homebrew/bin/go", &["version"], go_env, 10_000),
        ),
    );
    r.push(
        once(
            go_pkg_version(),
            "SIZETRAIL_NO_GO_PROBE",
            &[],
            fixed_command("/usr/local/go/bin/go", &["version"], go_env, 10_000),
        ),
    );
    assert(r@.len() == 11);
    r
}

} // verus!
