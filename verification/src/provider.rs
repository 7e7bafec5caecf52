//! Inventory providers: what each may use, what becomes of its answers, when it
//! is asked again, and which of its answers may be cached.

use crate::column::{copy_texts, copy_machine, machine_from, Machine};
use crate::config::{Inventory, MachineConfig, SubRow, MAX_INVENTORY_APPS};
use crate::digest::{fnv1a, inventory_digest, same_digest, sha256_hex};
use crate::inventory::{check_first_look, check_inventory, InventoryShape};
use crate::text::{decimal, join_path, same_text, trim, TextMap};
use vstd::prelude::*;
use vstd::string::*;

verus! {

pub const MAX_INVENTORY_BYTES: usize = 16777216;

pub const MAX_PROVIDER_ERROR_BYTES: usize = 65536;

pub const MAX_TOTAL_INVENTORY_BYTES: usize = 134217728;

pub const MAX_TOTAL_INVENTORY_APPS: usize = 32768;

pub const MAX_CONCURRENT_PROVIDER_COMMANDS: usize = 32;

pub const MAX_CONCURRENT_CACHE_READS: usize = 4;

pub const CACHE_PREPARE_WAIT_MILLIS: u64 = 50;

/// Which answer a cache write belongs to: the manager that asked, and the
/// number of the answer.
#[derive(Debug, Clone, Copy, PartialEq, Eq, Structural)]
pub struct CacheGeneration {
    pub manager_epoch: u64,
    pub provider_revision: u64,
}

impl Default for CacheGeneration {
    fn default() -> (r: Self)
        ensures
            r == (CacheGeneration { manager_epoch: 0, provider_revision: 0 }),
    {
        CacheGeneration { manager_epoch: 0, provider_revision: 0 }
    }
}

/// Whether `a` came before `b`: from an older manager, or as an older answer of
/// the same one.
pub open spec fn older(a: CacheGeneration, b: CacheGeneration) -> bool {
    a.manager_epoch < b.manager_epoch || (a.manager_epoch == b.manager_epoch && a.provider_revision
        < b.provider_revision)
}

/// The later of two generations.
pub open spec fn later(a: CacheGeneration, b: CacheGeneration) -> CacheGeneration {
    if older(a, b) {
        b
    } else {
        a
    }
}

impl CacheGeneration {
    pub fn new(manager_epoch: u64, provider_revision: u64) -> (r: Self)
        ensures
            r == (CacheGeneration { manager_epoch, provider_revision }),
    {
        CacheGeneration { manager_epoch, provider_revision }
    }

    /// Whether this generation came before the other.
    pub fn is_older(self, other: CacheGeneration) -> (r: bool)
        ensures
            r == older(self, other),
    {
        self.manager_epoch < other.manager_epoch || (self.manager_epoch == other.manager_epoch
            && self.provider_revision < other.provider_revision)
    }
}

/// One provider.
#[derive(Debug, Clone, PartialEq, Eq)]
pub struct ProviderSpec {
    pub name: String,
    pub argv: Vec<String>,
    pub timeout_millis: u64,
    pub machine: MachineConfig,
    pub max_bytes: usize,
    pub max_apps: usize,
}

#[derive(Debug, Clone, Copy, PartialEq, Eq, Structural)]
pub enum ProviderStatus {
    Cached,
    Online,
    Offline,
}

/// What the launcher hears of a provider.
#[derive(Debug, Clone, PartialEq, Eq)]
pub struct ProviderUpdate {
    pub machine: String,
    pub column: Option<Machine>,
    pub status: ProviderStatus,
    pub error: Option<String>,
}

/// The column that an update carries.
pub open spec fn column_of(column: Option<Machine>) -> Option<crate::column::MachineView> {
    match column {
        Some(machine) => Some(machine@),
        None => None,
    }
}

/// A column with an error.
pub open spec fn with_error(column: Option<Machine>, error: Seq<char>) -> Option<
    crate::column::MachineView,
> {
    match column {
        Some(machine) => Some(
            crate::column::MachineView { error: Some(error), ..machine@ },
        ),
        None => None,
    }
}

/// Waits between attempts, in milliseconds.
#[derive(Debug, Clone, Copy, PartialEq, Eq, Structural)]
pub struct RetryPolicy {
    pub initial_millis: u64,
    pub maximum_millis: u64,
    /// How much longer than its own limit a runner may take to clean up.
    pub runner_cleanup_grace_millis: u64,
}

impl Default for RetryPolicy {
    fn default() -> (r: Self)
        ensures
            r == (RetryPolicy {
                initial_millis: 500,
                maximum_millis: 60000,
                runner_cleanup_grace_millis: 250,
            }),
    {
        RetryPolicy {
            initial_millis: 500,
            maximum_millis: 60000,
            runner_cleanup_grace_millis: 250,
        }
    }
}

/// `n` kept between `low` and `high`.
pub open spec fn clamped(n: int, low: int, high: int) -> int {
    if n < low {
        low
    } else if n > high {
        high
    } else {
        n
    }
}

fn clamp(n: usize, low: usize, high: usize) -> (r: usize)
    ensures
        r == clamped(n as int, low as int, high as int),
{
    if n < low {
        low
    } else if n > high {
        high
    } else {
        n
    }
}

/// The bytes and applications that each of so many machines may send: an equal
/// share of the totals, at least one and at most what a single one may send.
pub fn fair_provider_limits(machines: usize) -> (r: (usize, usize))
    ensures
        ({
            let n = if machines < 1 {
                1
            } else {
                machines as int
            };
            &&& r.0 == clamped(MAX_TOTAL_INVENTORY_BYTES as int / n, 1, MAX_INVENTORY_BYTES as int)
            &&& r.1 == clamped(MAX_TOTAL_INVENTORY_APPS as int / n, 1, MAX_INVENTORY_APPS as int)
        }),
{
    let n: usize = if machines < 1 {
        1
    } else {
        machines
    };
    (
        clamp(MAX_TOTAL_INVENTORY_BYTES / n, 1, MAX_INVENTORY_BYTES),
        clamp(MAX_TOTAL_INVENTORY_APPS / n, 1, MAX_INVENTORY_APPS),
    )
}

fn copy_machine_config(m: &MachineConfig) -> (r: MachineConfig)
    ensures
        crate::config_change::machine_same(r, *m),
{
    MachineConfig {
        name: m.name.clone(),
        aliases: copy_texts(&m.aliases),
        accent: m.accent.clone(),
        inventory: copy_texts(&m.inventory),
        inventory_timeout_ms: m.inventory_timeout_ms,
        launch: copy_texts(&m.launch),
    }
}

/// Whether a provider is that of a machine, one of so many.
pub open spec fn is_spec_of(spec: ProviderSpec, machine: MachineConfig, machines: nat) -> bool {
    &&& spec.name@ == machine.name@
    &&& crate::text::texts(spec.argv@) == crate::text::texts(machine.inventory@)
    &&& spec.timeout_millis == machine.inventory_timeout_ms
    &&& crate::config_change::machine_same(spec.machine, machine)
    &&& spec.max_bytes == clamped(
        MAX_TOTAL_INVENTORY_BYTES as int / machines as int,
        1,
        MAX_INVENTORY_BYTES as int,
    )
    &&& spec.max_apps == clamped(
        MAX_TOTAL_INVENTORY_APPS as int / machines as int,
        1,
        MAX_INVENTORY_APPS as int,
    )
}

/// The providers of the configured machines, each with its fair share.
pub fn provider_specs(machines: &Vec<MachineConfig>) -> (r: Vec<ProviderSpec>)
    ensures
        r@.len() == machines@.len(),
        forall|i: int|
            0 <= i < r@.len() ==> is_spec_of(
                #[trigger] r@[i],
                machines@[i],
                machines@.len(),
            ),
{
    let (max_bytes, max_apps) = fair_provider_limits(machines.len());
    let mut specs: Vec<ProviderSpec> = Vec::new();
    let mut i: usize = 0;
    while i < machines.len()
        invariant
            i <= machines.len(),
            machines@.len() > 0 ==> max_bytes == clamped(
                MAX_TOTAL_INVENTORY_BYTES as int / machines@.len() as int,
                1,
                MAX_INVENTORY_BYTES as int,
            ) && max_apps == clamped(
                MAX_TOTAL_INVENTORY_APPS as int / machines@.len() as int,
                1,
                MAX_INVENTORY_APPS as int,
            ),
            specs@.len() == i,
            forall|k: int|
                0 <= k < i ==> is_spec_of(#[trigger] specs@[k], machines@[k], machines@.len()),
        decreases machines.len() - i,
    {
        let machine = &machines[i];
        specs.push(
            ProviderSpec {
                name: machine.name.clone(),
                argv: copy_texts(&machine.inventory),
                timeout_millis: machine.inventory_timeout_ms,
                machine: copy_machine_config(machine),
                max_bytes,
                max_apps,
            },
        );
        i = i + 1;
    }
    specs
}

/// Fair shares add up to no more than the totals, as long as there are no more
/// machines than applications to share.
pub proof fn fair_shares_fit_the_totals(machines: int)
    requires
        1 <= machines <= MAX_TOTAL_INVENTORY_APPS,
    ensures
        machines * clamped(
            MAX_TOTAL_INVENTORY_BYTES as int / machines,
            1,
            MAX_INVENTORY_BYTES as int,
        ) <= MAX_TOTAL_INVENTORY_BYTES,
        machines * clamped(
            MAX_TOTAL_INVENTORY_APPS as int / machines,
            1,
            MAX_INVENTORY_APPS as int,
        ) <= MAX_TOTAL_INVENTORY_APPS,
{
    let b = MAX_TOTAL_INVENTORY_BYTES as int / machines;
    let a = MAX_TOTAL_INVENTORY_APPS as int / machines;
    assert(b >= 1 && machines * b <= 134217728) by (nonlinear_arith)
        requires
            1 <= machines <= 32768,
            b == 134217728int / machines,
    ;
    assert(a >= 1 && machines * a <= 32768) by (nonlinear_arith)
        requires
            1 <= machines <= 32768,
            a == 32768int / machines,
    ;
    assert(machines * clamped(b, 1, MAX_INVENTORY_BYTES as int) <= machines * b) by (nonlinear_arith)
        requires
            machines >= 1,
            clamped(b, 1, MAX_INVENTORY_BYTES as int) <= b,
    ;
    assert(machines * clamped(a, 1, MAX_INVENTORY_APPS as int) <= machines * a) by (nonlinear_arith)
        requires
            machines >= 1,
            clamped(a, 1, MAX_INVENTORY_APPS as int) <= a,
    ;
}

/// How many providers run at once: two for each processor, at least two and at
/// most the fixed limit, and never more than there are machines.
pub fn provider_concurrency_for(machines: usize, parallelism: usize) -> (r: usize)
    ensures
        ({
            let cores = if parallelism < 1 {
                1
            } else {
                parallelism as int
            };
            let hardware = clamped(2 * cores, 2, MAX_CONCURRENT_PROVIDER_COMMANDS as int);
            let wanted = if machines < 1 {
                1
            } else {
                machines as int
            };
            r == (if wanted < hardware {
                wanted
            } else {
                hardware
            })
        }),
        1 <= r <= 32,
        machines >= 1 ==> r <= machines,
        1 <= parallelism <= 16 && machines >= 2 * parallelism ==> r == 2 * parallelism,
        parallelism > 16 && machines >= 32 ==> r == 32,
{
    let cores: usize = if parallelism < 1 {
        1
    } else {
        parallelism
    };
    let doubled: usize = if cores > MAX_CONCURRENT_PROVIDER_COMMANDS {
        MAX_CONCURRENT_PROVIDER_COMMANDS
    } else {
        cores * 2
    };
    let hardware: usize = clamp(doubled, 2, MAX_CONCURRENT_PROVIDER_COMMANDS);
    let wanted: usize = if machines < 1 {
        1
    } else {
        machines
    };
    if wanted < hardware {
        wanted
    } else {
        hardware
    }
}

/// How many caches are read at once: one for each two processors.
pub fn cache_concurrency_for(parallelism: usize) -> (r: usize)
    ensures
        r == clamped(
            ((if parallelism < 1 {
                1
            } else {
                parallelism as int
            }) + 1) / 2,
            1,
            MAX_CONCURRENT_CACHE_READS as int,
        ),
        1 <= r <= 4,
        1 <= parallelism <= 8 ==> 2 * r >= parallelism && 2 * r <= parallelism + 1,
        parallelism > 8 ==> r == 4,
{
    let cores: usize = if parallelism < 1 {
        1
    } else {
        parallelism
    };
    clamp(cores / 2 + cores % 2, 1, MAX_CONCURRENT_CACHE_READS)
}

/// Two to the power of `n`.
pub open spec fn doubled(n: nat) -> int
    decreases n,
{
    if n == 0 {
        1
    } else {
        2 * doubled((n - 1) as nat)
    }
}

/// The wait before jitter: doubled with each failure after the first, up to the
/// maximum.
pub open spec fn base_delay(policy: RetryPolicy, failures: u32) -> int {
    let steps: nat = if failures <= 1 {
        0
    } else if failures <= 21 {
        (failures - 1) as nat
    } else {
        20
    };
    let grown = policy.initial_millis * doubled(steps);
    if grown < policy.maximum_millis {
        grown
    } else {
        policy.maximum_millis as int
    }
}

/// The wait before the next attempt: the base with up to a quarter taken off,
/// by an amount that depends only on the machine and the failure count.
pub open spec fn delay_of(policy: RetryPolicy, machine: Seq<char>, failures: u32) -> int {
    let base = base_delay(policy, failures);
    let spread = base / 4;
    let hash = crate::digest::fnv1a_hash(vstd::utf8::encode_utf8(machine)) ^ (failures as u64);
    base - spread + (hash as int) % (spread + 1)
}

/// The wait before the next attempt, in milliseconds.
pub fn retry_delay(policy: &RetryPolicy, machine: &str, failures: u32) -> (r: u64)
    ensures
        r == delay_of(*policy, machine@, failures),
        r <= policy.maximum_millis,
{
    let steps: u32 = if failures <= 1 {
        0
    } else if failures <= 21 {
        failures - 1
    } else {
        20
    };
    let mut factor: u128 = 1;
    let mut i: u32 = 0;
    proof {
        doubled_grows(0, steps as nat);
        doubled_at_twenty();
        doubled_grows(steps as nat, 20);
    }
    while i < steps
        invariant
            i <= steps <= 20,
            factor == doubled(i as nat),
            1 <= factor,
            doubled(20) == 1048576,
        decreases steps - i,
    {
        proof {
            doubled_grows((i + 1) as nat, 20);
        }
        factor = factor * 2;
        i = i + 1;
    }
    assert((policy.initial_millis as u128) * factor <= 0xffff_ffff_ffff_ffff * 1048576)
        by (nonlinear_arith)
        requires
            policy.initial_millis <= 0xffff_ffff_ffff_ffffu64,
            0 <= factor <= 1048576,
    ;
    let grown: u128 = (policy.initial_millis as u128) * factor;
    let base: u64 = if grown < policy.maximum_millis as u128 {
        grown as u64
    } else {
        policy.maximum_millis
    };
    assert(base == base_delay(*policy, failures));
    let hash: u64 = fnv1a(machine.as_bytes()) ^ (failures as u64);
    let spread: u64 = base / 4;
    let jitter: u64 = hash % (spread + 1);
    base - spread + jitter
}

proof fn doubled_grows(a: nat, b: nat)
    requires
        a <= b,
    ensures
        1 <= doubled(a) <= doubled(b),
    decreases b,
{
    if a < b {
        doubled_grows(a, (b - 1) as nat);
    } else if a > 0 {
        doubled_grows((a - 1) as nat, (a - 1) as nat);
    }
}

proof fn doubled_at_twenty()
    ensures
        doubled(20) == 1048576,
{
    reveal_with_fuel(doubled, 21);
}

/// A wait never exceeds the policy's maximum, and never falls below three
/// quarters of its base.
pub proof fn delay_is_bounded(policy: RetryPolicy, machine: Seq<char>, failures: u32)
    ensures
        delay_of(policy, machine, failures) <= policy.maximum_millis,
        base_delay(policy, failures) - base_delay(policy, failures) / 4 <= delay_of(
            policy,
            machine,
            failures,
        ) <= base_delay(policy, failures),
{
    let steps: nat = if failures <= 1 {
        0
    } else if failures <= 21 {
        (failures - 1) as nat
    } else {
        20
    };
    doubled_grows(0, steps);
    assert(policy.initial_millis * doubled(steps) >= 0) by (nonlinear_arith)
        requires
            policy.initial_millis >= 0,
            doubled(steps) >= 1,
    ;
    let base = base_delay(policy, failures);
    let spread = base / 4;
    let hash = (crate::digest::fnv1a_hash(vstd::utf8::encode_utf8(machine)) ^ (failures as u64)) as int;
    assert(0 <= hash % (spread + 1) <= spread) by (nonlinear_arith)
        requires
            hash >= 0,
            spread >= 0,
    ;
}

/// The complaint about an answer that exceeds its provider's share.
pub open spec fn oversize_text(max_bytes: usize, bytes: nat) -> Seq<char> {
    "inventory exceeded this provider's fair-share limit of "@ + crate::text::decimal_text(
        max_bytes as nat,
    ) + " bytes ("@ + crate::text::decimal_text(bytes) + " bytes)"@
}

fn oversize_message(max_bytes: usize, bytes: usize) -> (r: String)
    ensures
        r@ == oversize_text(max_bytes, bytes as nat),
{
    let mut message = "inventory exceeded this provider's fair-share limit of ".to_owned();
    message.append(decimal(max_bytes as u128).as_str());
    message.append(" bytes (");
    message.append(decimal(bytes as u128).as_str());
    message.append(" bytes)");
    message
}

/// Judges the length of a provider's answer, before any of it is read.
pub fn admit_answer(bytes: usize, max_bytes: usize) -> (r: Result<(), String>)
    ensures
        if bytes > max_bytes {
            r is Err && r->Err_0@ == oversize_text(max_bytes, bytes as nat)
        } else {
            r is Ok
        },
{
    if bytes > max_bytes {
        Err(oversize_message(max_bytes, bytes))
    } else {
        Ok(())
    }
}

/// What an inventory that was decoded becomes: a column, or a complaint. An
/// inventory that reports an error is no column.
pub open spec fn column_result(
    machine: MachineConfig,
    decoded: Result<Inventory, String>,
    rows: Seq<Seq<char>>,
    subrows: TextMap<Vec<SubRow>>,
    max_apps: usize,
) -> Result<crate::column::MachineView, Seq<char>> {
    match crate::inventory::decoded_fault(decoded, max_apps) {
        Some(fault) => Err(fault),
        None => match decoded->Ok_0.error {
            Some(error) => Err(error@),
            None => Ok(
                crate::column::column_view(machine, Some(decoded->Ok_0), None, rows, subrows),
            ),
        },
    }
}

/// The column of a machine from what the JSON reader made of a provider's
/// answer.
pub fn column_from(
    machine: &MachineConfig,
    decoded: Result<Inventory, String>,
    rows: &Vec<String>,
    subrows: &TextMap<Vec<SubRow>>,
    max_apps: usize,
) -> (r: Result<Machine, String>)
    ensures
        match column_result(*machine, decoded, crate::text::texts(rows@), *subrows, max_apps) {
            Ok(column) => r is Ok && r->Ok_0@ == column,
            Err(complaint) => r is Err && r->Err_0@ == complaint,
        },
{
    let inventory = match check_inventory(decoded, max_apps) {
        Err(complaint) => {
            return Err(complaint);
        },
        Ok(inventory) => inventory,
    };
    match &inventory.error {
        Some(error) => Err(error.clone()),
        None => Ok(machine_from(machine, Some(&inventory), None, rows, subrows)),
    }
}

/// The column of a machine from a provider's answer. `bytes` is the length of
/// the answer, `shape` what a first look at it found, and `decoded` what the JSON
/// reader made of it.
pub fn normalized_column(
    machine: &MachineConfig,
    bytes: usize,
    shape: Result<InventoryShape, String>,
    decoded: Result<Inventory, String>,
    rows: &Vec<String>,
    subrows: &TextMap<Vec<SubRow>>,
    max_bytes: usize,
    max_apps: usize,
) -> (r: Result<Machine, String>)
    ensures
        bytes > max_bytes ==> r is Err && r->Err_0@ == oversize_text(max_bytes, bytes as nat),
        bytes <= max_bytes ==> match crate::inventory::first_fault(shape, max_apps) {
            Some(fault) => r is Err && r->Err_0@ == fault,
            None => match column_result(
                *machine,
                decoded,
                crate::text::texts(rows@),
                *subrows,
                max_apps,
            ) {
                Ok(column) => r is Ok && r->Ok_0@ == column,
                Err(complaint) => r is Err && r->Err_0@ == complaint,
            },
        },
{
    if let Err(complaint) = admit_answer(bytes, max_bytes) {
        return Err(complaint);
    }
    if let Err(complaint) = check_first_look(&shape, max_apps) {
        return Err(complaint);
    }
    column_from(machine, decoded, rows, subrows, max_apps)
}

/// What is known of a provider between its answers.
pub struct ProviderState {
    pub last_digest: Option<[u8; 32]>,
    pub last_good: Option<Machine>,
    pub failures: u32,
    pub last_was_online: bool,
    pub cache_revision: u64,
}

/// What a provider's loop does after an answer.
pub enum Wait {
    /// Until somebody asks for a refresh.
    Refresh,
    /// Until the time is over or somebody asks for a refresh.
    Retry(u64),
}

/// What follows from an answer: what to publish, what to store, how to wait.
pub struct Step {
    pub publish: Option<ProviderUpdate>,
    pub store: Option<CacheGeneration>,
    pub wait: Wait,
}

/// What the bytes of an answer lead to.
pub enum Intake {
    /// The answer is finished with.
    Done(Step),
    /// The bytes are new: they have to be decoded.
    Decode([u8; 32]),
}

/// One more failure, without overflow.
pub open spec fn one_more(failures: u32) -> u32 {
    if failures == u32::MAX {
        u32::MAX
    } else {
        (failures + 1) as u32
    }
}

/// Whether a step is the one after a failed answer: the last good column is
/// shown with the error, and the provider is asked again after the wait.
pub open spec fn is_failure_step(
    before: ProviderState,
    after: ProviderState,
    spec: ProviderSpec,
    policy: RetryPolicy,
    error: Seq<char>,
    step: Step,
) -> bool {
    &&& after == (ProviderState {
        failures: one_more(before.failures),
        last_was_online: false,
        ..before
    })
    &&& step.publish is Some
    &&& step.publish->0.machine@ == spec.name@
    &&& step.publish->0.status == ProviderStatus::Offline
    &&& crate::text::opt_text(step.publish->0.error) == Some(error)
    &&& column_of(step.publish->0.column) == with_error(before.last_good, error)
    &&& step.store is None
    &&& step.wait == Wait::Retry(delay_of(policy, spec.name@, after.failures) as u64)
}

fn copy_column(column: &Option<Machine>) -> (r: Option<Machine>)
    ensures
        column_of(r) == column_of(*column),
{
    match column {
        Some(machine) => Some(copy_machine(machine)),
        None => None,
    }
}

impl ProviderState {
    /// The state of a provider that starts, and the update for its cached
    /// column, if there is one.
    pub fn start(name: &str, cached: Option<([u8; 32], Machine)>) -> (r: (
        Self,
        Option<ProviderUpdate>,
    ))
        ensures
            r.0.failures == 0,
            !r.0.last_was_online,
            r.0.cache_revision == 0,
            match cached {
                None => r.0.last_digest is None && r.0.last_good is None && r.1 is None,
                Some((digest, column)) => {
                    &&& r.0.last_digest == Some(digest)
                    &&& r.0.last_good == Some(column)
                    &&& r.1 is Some
                    &&& r.1->0.machine@ == name@
                    &&& column_of(r.1->0.column) == Some(column@)
                    &&& r.1->0.status == ProviderStatus::Cached
                    &&& r.1->0.error is None
                },
            },
    {
        match cached {
            None => (
                ProviderState {
                    last_digest: None,
                    last_good: None,
                    failures: 0,
                    last_was_online: false,
                    cache_revision: 0,
                },
                None,
            ),
            Some((digest, column)) => {
                let shown = copy_machine(&column);
                (
                    ProviderState {
                        last_digest: Some(digest),
                        last_good: Some(column),
                        failures: 0,
                        last_was_online: false,
                        cache_revision: 0,
                    },
                    Some(
                        ProviderUpdate {
                            machine: name.to_owned(),
                            column: Some(shown),
                            status: ProviderStatus::Cached,
                            error: None,
                        },
                    ),
                )
            },
        }
    }

    /// A failed answer: a failed command, a worker that failed, or no answer
    /// in time.
    pub fn fail(&mut self, spec: &ProviderSpec, policy: &RetryPolicy, error: String) -> (r: Step)
        ensures
            is_failure_step(*old(self), *final(self), *spec, *policy, error@, r),
    {
        if self.failures < u32::MAX {
            self.failures = self.failures + 1;
        }
        self.last_was_online = false;
        let column = match &self.last_good {
            Some(machine) => {
                let mut offline = copy_machine(machine);
                offline.error = Some(error.clone());
                assert(offline@ =~= (crate::column::MachineView {
                    error: Some(error@),
                    ..machine@
                }));
                Some(offline)
            },
            None => None,
        };
        Step {
            publish: Some(
                ProviderUpdate {
                    machine: spec.name.clone(),
                    column,
                    status: ProviderStatus::Offline,
                    error: Some(error),
                },
            ),
            store: None,
            wait: Wait::Retry(retry_delay(policy, spec.name.as_str(), self.failures)),
        }
    }

    /// No answer in time.
    pub fn time_out(&mut self, spec: &ProviderSpec, policy: &RetryPolicy) -> (r: Step)
        ensures
            is_failure_step(
                *old(self),
                *final(self),
                *spec,
                *policy,
                timeout_text(spec.timeout_millis),
                r,
            ),
    {
        let message = timeout_message(spec.timeout_millis);
        self.fail(spec, policy, message)
    }

    /// The bytes of an answer. Too many are a failure. The same bytes as last
    /// time only bring the provider back online; new ones have to be decoded.
    pub fn receive(&mut self, spec: &ProviderSpec, policy: &RetryPolicy, bytes: &[u8]) -> (r:
        Intake)
        ensures
            if bytes@.len() > spec.max_bytes {
                &&& r is Done
                &&& is_failure_step(
                    *old(self),
                    *final(self),
                    *spec,
                    *policy,
                    oversize_text(spec.max_bytes, bytes@.len()),
                    r->Done_0,
                )
            } else if old(self).last_digest is Some && old(self).last_digest->0@
                == crate::digest::sha256(bytes@) {
                &&& r is Done
                &&& *final(self) == (ProviderState {
                    failures: 0,
                    last_was_online: true,
                    ..*old(self)
                })
                &&& r->Done_0.store is None
                &&& r->Done_0.wait is Refresh
                &&& if old(self).last_was_online {
                    r->Done_0.publish is None
                } else {
                    is_online_update(r->Done_0.publish, *spec, column_of(old(self).last_good))
                }
            } else {
                &&& r is Decode
                &&& r->Decode_0@ == crate::digest::sha256(bytes@)
                &&& *final(self) == *old(self)
            },
    {
        if bytes.len() > spec.max_bytes {
            let message = oversize_message(spec.max_bytes, bytes.len());
            return Intake::Done(self.fail(spec, policy, message));
        }
        let digest = inventory_digest(bytes);
        let unchanged = match &self.last_digest {
            Some(last) => same_digest(last, &digest),
            None => false,
        };
        if !unchanged {
            return Intake::Decode(digest);
        }
        self.failures = 0;
        let publish = if self.last_was_online {
            None
        } else {
            Some(
                ProviderUpdate {
                    machine: spec.name.clone(),
                    column: copy_column(&self.last_good),
                    status: ProviderStatus::Online,
                    error: None,
                },
            )
        };
        self.last_was_online = true;
        Intake::Done(Step { publish, store: None, wait: Wait::Refresh })
    }

    /// The decoded answer to the bytes with this digest. A column replaces the
    /// last good one, is published, and may be stored under the next revision.
    pub fn take_column(
        &mut self,
        spec: &ProviderSpec,
        policy: &RetryPolicy,
        digest: [u8; 32],
        column: Result<Machine, String>,
        cache_epoch: u64,
    ) -> (r: Step)
        ensures
            match column {
                Err(error) => is_failure_step(
                    *old(self),
                    *final(self),
                    *spec,
                    *policy,
                    error@,
                    r,
                ),
                Ok(machine) => {
                    let revision = if old(self).cache_revision == u64::MAX {
                        u64::MAX
                    } else {
                        (old(self).cache_revision + 1) as u64
                    };
                    &&& *final(self) == (ProviderState {
                        last_digest: Some(digest),
                        last_good: Some(machine),
                        failures: 0,
                        last_was_online: true,
                        cache_revision: revision,
                    })
                    &&& is_online_update(r.publish, *spec, Some(machine@))
                    &&& r.store == Some(
                        CacheGeneration {
                            manager_epoch: cache_epoch,
                            provider_revision: revision,
                        },
                    )
                    &&& r.wait is Refresh
                },
            },
    {
        let machine = match column {
            Err(error) => {
                return self.fail(spec, policy, error);
            },
            Ok(machine) => machine,
        };
        let shown = copy_machine(&machine);
        self.failures = 0;
        self.last_digest = Some(digest);
        self.last_good = Some(machine);
        self.last_was_online = true;
        if self.cache_revision < u64::MAX {
            self.cache_revision = self.cache_revision + 1;
        }
        Step {
            publish: Some(
                ProviderUpdate {
                    machine: spec.name.clone(),
                    column: Some(shown),
                    status: ProviderStatus::Online,
                    error: None,
                },
            ),
            store: Some(CacheGeneration::new(cache_epoch, self.cache_revision)),
            wait: Wait::Refresh,
        }
    }
}

/// Whether an update says that the provider is online with this column.
pub open spec fn is_online_update(
    update: Option<ProviderUpdate>,
    spec: ProviderSpec,
    column: Option<crate::column::MachineView>,
) -> bool {
    &&& update is Some
    &&& update->0.machine@ == spec.name@
    &&& column_of(update->0.column) == column
    &&& update->0.status == ProviderStatus::Online
    &&& update->0.error is None
}

/// A failure never loses the last good column: what is published is that column
/// with the error, and the column itself stays for the next update.
pub proof fn failure_keeps_last_good(
    before: ProviderState,
    after: ProviderState,
    spec: ProviderSpec,
    policy: RetryPolicy,
    error: Seq<char>,
    step: Step,
)
    requires
        is_failure_step(before, after, spec, policy, error, step),
        before.last_good is Some,
    ensures
        after.last_good == before.last_good,
        after.last_digest == before.last_digest,
        step.publish->0.column is Some,
        step.publish->0.column->0@.cells == before.last_good->0@.cells,
        step.publish->0.column->0@.error == Some(error),
{
}

/// The complaint about an answer that did not come in time.
pub open spec fn timeout_text(millis: u64) -> Seq<char> {
    "inventory timed out after "@ + crate::text::decimal_text(millis as nat) + " ms"@
}

pub fn timeout_message(millis: u64) -> (r: String)
    ensures
        r@ == timeout_text(millis),
{
    let mut message = "inventory timed out after ".to_owned();
    message.append(decimal(millis as u128).as_str());
    message.append(" ms");
    message
}

/// How long a runner may take until it counts as lost.
pub fn runner_deadline(spec: &ProviderSpec, policy: &RetryPolicy) -> (r: u64)
    ensures
        r == (if spec.timeout_millis + policy.runner_cleanup_grace_millis <= u64::MAX {
            spec.timeout_millis + policy.runner_cleanup_grace_millis
        } else {
            u64::MAX as int
        }),
{
    if policy.runner_cleanup_grace_millis > u64::MAX - spec.timeout_millis {
        u64::MAX
    } else {
        spec.timeout_millis + policy.runner_cleanup_grace_millis
    }
}

/// Whether the provider is the built-in scan of desktop files.
pub fn is_desktop_scan(argv: &Vec<String>) -> (r: bool)
    ensures
        r == (argv@.len() == 1 && argv@[0]@ == "cbar:desktop-files"@),
{
    argv.len() == 1 && same_text(argv[0].as_str(), "cbar:desktop-files")
}

/// The text that `String::from_utf8_lossy` reads from bytes.
pub uninterp spec fn lossy_text(bytes: Seq<u8>) -> Seq<char>;

/// `String::from_utf8_lossy`: a function of the bytes alone.
#[verifier::external_body]
fn lossy(bytes: &Vec<u8>) -> (r: String)
    ensures
        r@ == lossy_text(bytes@),
{
    String::from_utf8_lossy(bytes).into_owned()
}

/// The result of a finished inventory command. A failed one is explained by its
/// error output, or by its exit status where there is none.
pub fn inventory_outcome(
    success: bool,
    status: &str,
    stdout: Vec<u8>,
    stderr: &Vec<u8>,
) -> (r: Result<Vec<u8>, String>)
    ensures
        match r {
            Ok(bytes) => success && bytes == stdout,
            Err(message) => {
                let explained = crate::text::trimmed(lossy_text(stderr@));
                &&& !success
                &&& message@ == (if explained.len() == 0 {
                    "inventory exited with "@ + status@
                } else {
                    explained
                })
            },
        },
{
    if success {
        return Ok(stdout);
    }
    let text = lossy(stderr);
    failed_outcome(text.as_str(), status)
}

/// The complaint of a failed command, from its error output as text.
pub fn failed_outcome(stderr: &str, status: &str) -> (r: Result<Vec<u8>, String>)
    ensures
        r is Err,
        r->Err_0@ == (if crate::text::trimmed(stderr@).len() == 0 {
            "inventory exited with "@ + status@
        } else {
            crate::text::trimmed(stderr@)
        }),
{
    let message = trim(stderr);
    if message.as_str().is_empty() {
        let mut text = "inventory exited with ".to_owned();
        text.append(status);
        Err(text)
    } else {
        Err(message)
    }
}

/// The mark at the end of truncated output: a line feed and `[truncated]`.
pub open spec fn truncation_mark() -> Seq<u8> {
    seq![10u8, 91u8, 116u8, 114u8, 117u8, 110u8, 99u8, 97u8, 116u8, 101u8, 100u8, 93u8]
}

/// What becomes of captured output (at most one byte more than the limit is
/// read): within the limit it stays; beyond it, it is truncated and marked, or
/// refused.
pub fn capture_limited(bytes: Vec<u8>, label: &str, limit: usize, truncate: bool) -> (r: Result<
    Vec<u8>,
    String,
>)
    ensures
        if bytes@.len() <= limit {
            r == Ok::<Vec<u8>, String>(bytes)
        } else if truncate {
            r is Ok && r->Ok_0@ == bytes@.take(limit as int) + truncation_mark()
        } else {
            r is Err && r->Err_0@ == "inventory "@ + label@ + " exceeded "@
                + crate::text::decimal_text(limit as nat) + " bytes"@
        },
{
    let mut bytes = bytes;
    if bytes.len() <= limit {
        return Ok(bytes);
    }
    if !truncate {
        let mut message = "inventory ".to_owned();
        message.append(label);
        message.append(" exceeded ");
        message.append(decimal(limit as u128).as_str());
        message.append(" bytes");
        return Err(message);
    }
    let ghost whole = bytes@;
    bytes.truncate(limit);
    let mark: [u8; 12] = [10, 91, 116, 114, 117, 110, 99, 97, 116, 101, 100, 93];
    let mut i: usize = 0;
    while i < 12
        invariant
            i <= 12,
            limit < whole.len(),
            mark@ == truncation_mark(),
            bytes@ == whole.take(limit as int) + mark@.take(i as int),
        decreases 12 - i,
    {
        bytes.push(mark[i]);
        assert(mark@.take(i + 1) =~= mark@.take(i as int).push(mark@[i as int]));
        i = i + 1;
    }
    assert(mark@.take(12) =~= mark@);
    Ok(bytes)
}

/// Where inventories are cached: the explicit directory, else below the cache
/// directory, else below the home directory.
pub fn cache_root(explicit: Option<String>, cache_home: Option<String>, home: Option<String>) -> (r:
    Option<String>)
    ensures
        crate::text::opt_text(r) == (if crate::config::set_text(explicit) is Some {
            crate::config::set_text(explicit)
        } else if crate::config::set_text(cache_home) is Some {
            Some(
                crate::text::path_joined(
                    crate::config::set_text(cache_home)->0,
                    "cbar/launcher/inventory"@,
                ),
            )
        } else if crate::config::set_text(home) is Some {
            Some(
                crate::text::path_joined(
                    crate::text::path_joined(crate::config::set_text(home)->0, ".cache"@),
                    "cbar/launcher/inventory"@,
                ),
            )
        } else {
            None
        }),
{
    if let Some(path) = explicit {
        if !path.as_str().is_empty() {
            return Some(path);
        }
    }
    if let Some(path) = cache_home {
        if !path.as_str().is_empty() {
            return Some(join_path(path.as_str(), "cbar/launcher/inventory"));
        }
    }
    if let Some(path) = home {
        if !path.as_str().is_empty() {
            let cache = join_path(path.as_str(), ".cache");
            return Some(join_path(cache.as_str(), "cbar/launcher/inventory"));
        }
    }
    None
}

/// The cache file of a machine: named by the digest of the machine's name, so
/// that no name can leave the directory.
pub fn cache_file_name(machine: &str) -> (r: String)
    ensures
        r@ == "inventory-"@ + crate::digest::hex_text(
            crate::digest::sha256(vstd::utf8::encode_utf8(machine@)),
        ) + ".json"@,
{
    let mut name = "inventory-".to_owned();
    name.append(sha256_hex(machine.as_bytes()).as_str());
    name.append(".json");
    name
}

/// What was found at a path, without following a link.
#[derive(Debug, Clone, Copy, PartialEq, Eq, Structural)]
pub struct PathFacts {
    pub is_symlink: bool,
    pub is_dir: bool,
    pub is_file: bool,
    pub uid: u32,
    pub mode: u32,
    pub length: u64,
}

/// A cache directory is a real directory of the user that nobody else can
/// enter.
pub fn cache_root_safe(facts: PathFacts, euid: u32) -> (r: bool)
    ensures
        r == (!facts.is_symlink && facts.is_dir && facts.uid == euid && facts.mode & 0o077u32 == 0),
{
    !facts.is_symlink && facts.is_dir && facts.uid == euid && facts.mode & 0o077u32 == 0
}

/// A cache file is a regular file of the user that nobody else can read, within
/// the limit.
pub fn cache_file_safe(facts: PathFacts, euid: u32, limit: usize) -> (r: bool)
    ensures
        r == (facts.is_file && facts.uid == euid && facts.mode & 0o077u32 == 0 && facts.length
            <= limit && facts.length <= MAX_INVENTORY_BYTES),
{
    let bound: usize = if limit < MAX_INVENTORY_BYTES {
        limit
    } else {
        MAX_INVENTORY_BYTES
    };
    facts.is_file && facts.uid == euid && facts.mode & 0o077u32 == 0 && facts.length
        <= bound as u64
}

/// The newest generation that was reserved for a path, as long as some
/// reservation for it is held.
#[derive(Debug, Clone)]
pub struct Gate {
    pub path: String,
    pub newest: CacheGeneration,
    pub holders: usize,
}

/// A write that was announced.
#[derive(Debug)]
pub struct CacheWriteReservation {
    pub path: String,
    pub generation: CacheGeneration,
}

/// The gates of all paths with reservations.
#[derive(Debug)]
pub struct CacheGates {
    pub gates: Vec<Gate>,
}

/// The guard of a path.
pub open spec fn gate_at(gates: Seq<Gate>, path: Seq<char>) -> Option<Gate>
    decreases gates.len(),
{
    if gates.len() == 0 {
        None
    } else if gates[0].path@ == path {
        Some(gates[0])
    } else {
        gate_at(gates.drop_first(), path)
    }
}

impl CacheGates {
    /// No path has two gates, and every gate is held.
    pub open spec fn wf(self) -> bool {
        &&& forall|i: int, j: int|
            0 <= i < j < self.gates@.len() ==> (#[trigger] self.gates@[i]).path@ != (
            #[trigger] self.gates@[j]).path@
        &&& forall|i: int| 0 <= i < self.gates@.len() ==> (#[trigger] self.gates@[i]).holders > 0
    }

    /// The guard of a path.
    pub open spec fn gate(self, path: Seq<char>) -> Option<Gate> {
        gate_at(self.gates@, path)
    }

    /// The newest generation reserved for a path.
    pub open spec fn newest(self, path: Seq<char>) -> Option<CacheGeneration> {
        match self.gate(path) {
            Some(gate) => Some(gate.newest),
            None => None,
        }
    }

    /// The number of reservations held for a path.
    pub open spec fn holders(self, path: Seq<char>) -> nat {
        match self.gate(path) {
            Some(gate) => gate.holders as nat,
            None => 0,
        }
    }

    pub fn new() -> (r: Self)
        ensures
            r.wf(),
            r.gates@.len() == 0,
    {
        CacheGates { gates: Vec::new() }
    }

    fn find(&self, path: &str) -> (r: Option<usize>)
        ensures
            match r {
                Some(i) => i < self.gates@.len() && self.gates@[i as int].path@ == path@
                    && self.gate(path@) == Some(self.gates@[i as int]) && forall|k: int|
                    0 <= k < i ==> (#[trigger] self.gates@[k]).path@ != path@,
                None => self.gate(path@) is None && forall|k: int|
                    0 <= k < self.gates@.len() ==> (#[trigger] self.gates@[k]).path@ != path@,
            },
    {
        let mut i: usize = 0;
        assert(self.gates@.skip(0) =~= self.gates@);
        while i < self.gates.len()
            invariant
                i <= self.gates.len(),
                gate_at(self.gates@, path@) == gate_at(self.gates@.skip(i as int), path@),
                forall|k: int| 0 <= k < i ==> (#[trigger] self.gates@[k]).path@ != path@,
            decreases self.gates.len() - i,
        {
            assert(self.gates@.skip(i as int)[0] == self.gates@[i as int]);
            assert(self.gates@.skip(i as int).drop_first() =~= self.gates@.skip(i + 1));
            if same_text(self.gates[i].path.as_str(), path) {
                return Some(i);
            }
            i = i + 1;
        }
        None
    }

    /// Announces a write: from now on no older one for the same path is
    /// allowed, until every reservation for the path is released.
    pub fn reserve_cache_generation(&mut self, path: &str, generation: CacheGeneration) -> (r:
        CacheWriteReservation)
        requires
            old(self).wf(),
            old(self).holders(path@) < usize::MAX,
        ensures
            final(self).wf(),
            r.path@ == path@,
            r.generation == generation,
            final(self).newest(path@) == Some(
                match old(self).newest(path@) {
                    Some(newest) => later(newest, generation),
                    None => generation,
                },
            ),
            final(self).holders(path@) == old(self).holders(path@) + 1,
            forall|other: Seq<char>|
                other != path@ ==> #[trigger] final(self).gate(other) == old(self).gate(other),
    {
        let ghost before = self.gates@;
        match self.find(path) {
            Some(i) => {
                let newest = self.gates[i].newest;
                let holders: usize = self.gates[i].holders;
                let gate = Gate {
                    path: self.gates[i].path.clone(),
                    newest: if newest.is_older(generation) {
                        generation
                    } else {
                        newest
                    },
                    holders: holders + 1,
                };
                proof {
                    gate_after_update(before, i as int, gate);
                }
                self.gates.set(i, gate);
            },
            None => {
                let gate = Gate { path: path.to_owned(), newest: generation, holders: 1 };
                proof {
                    gate_after_push(before, gate);
                }
                self.gates.push(gate);
            },
        }
        CacheWriteReservation { path: path.to_owned(), generation }
    }

    /// Whether an announced write may still happen: its manager is not retired,
    /// and nothing newer was announced for the path.
    pub fn write_allowed(&self, reservation: &CacheWriteReservation, current_epoch: u64) -> (r:
        bool)
        ensures
            r == (reservation.generation.manager_epoch >= current_epoch && match self.newest(
                reservation.path@,
            ) {
                Some(newest) => !older(reservation.generation, newest),
                None => true,
            }),
    {
        if reservation.generation.manager_epoch < current_epoch {
            return false;
        }
        match self.find(reservation.path.as_str()) {
            Some(i) => !reservation.generation.is_older(self.gates[i].newest),
            None => true,
        }
    }

    /// Gives a reservation back, after its write or instead of it. The last one
    /// for a path takes the guard with it.
    pub fn release(&mut self, reservation: CacheWriteReservation)
        requires
            old(self).wf(),
        ensures
            final(self).wf(),
            old(self).holders(reservation.path@) > 0 ==> final(self).holders(reservation.path@)
                == old(self).holders(reservation.path@) - 1,
            old(self).holders(reservation.path@) <= 1 ==> final(self).gate(reservation.path@)
                is None,
            old(self).holders(reservation.path@) > 1 ==> final(self).newest(reservation.path@)
                == old(self).newest(reservation.path@),
            forall|other: Seq<char>|
                other != reservation.path@ ==> #[trigger] final(self).gate(other) == old(self).gate(
                    other,
                ),
    {
        let ghost before = self.gates@;
        match self.find(reservation.path.as_str()) {
            Some(i) => {
                let holders: usize = self.gates[i].holders;
                if holders <= 1 {
                    proof {
                        gate_after_remove(before, i as int);
                    }
                    self.gates.remove(i);
                } else {
                    let gate = Gate {
                        path: self.gates[i].path.clone(),
                        newest: self.gates[i].newest,
                        holders: holders - 1,
                    };
                    proof {
                        gate_after_update(before, i as int, gate);
                    }
                    self.gates.set(i, gate);
                }
            },
            None => {},
        }
    }
}

proof fn gate_after_update(gates: Seq<Gate>, at: int, gate: Gate)
    requires
        0 <= at < gates.len(),
        gates[at].path@ == gate.path@,
        forall|k: int| 0 <= k < at ==> (#[trigger] gates[k]).path@ != gate.path@,
    ensures
        gate_at(gates.update(at, gate), gate.path@) == Some(gate),
        forall|other: Seq<char>|
            other != gate.path@ ==> #[trigger] gate_at(gates.update(at, gate), other) == gate_at(
                gates,
                other,
            ),
    decreases gates.len(),
{
    let updated = gates.update(at, gate);
    if at == 0 {
        assert(updated.drop_first() =~= gates.drop_first());
    } else {
        gate_after_update(gates.drop_first(), at - 1, gate);
        assert(updated.drop_first() =~= gates.drop_first().update(at - 1, gate));
        assert forall|other: Seq<char>| other != gate.path@ implies #[trigger] gate_at(
            updated,
            other,
        ) == gate_at(gates, other) by {
            assert(gate_at(gates.drop_first().update(at - 1, gate), other) == gate_at(
                gates.drop_first(),
                other,
            ));
        }
    }
}

proof fn gate_after_push(gates: Seq<Gate>, gate: Gate)
    requires
        forall|k: int| 0 <= k < gates.len() ==> (#[trigger] gates[k]).path@ != gate.path@,
    ensures
        gate_at(gates.push(gate), gate.path@) == Some(gate),
        forall|other: Seq<char>|
            other != gate.path@ ==> #[trigger] gate_at(gates.push(gate), other) == gate_at(
                gates,
                other,
            ),
    decreases gates.len(),
{
    let pushed = gates.push(gate);
    if gates.len() == 0 {
        assert(pushed[0] == gate);
        assert forall|other: Seq<char>| other != gate.path@ implies #[trigger] gate_at(
            pushed,
            other,
        ) == gate_at(gates, other) by {
            assert(gate_at(pushed.drop_first(), other) is None);
        }
    } else {
        gate_after_push(gates.drop_first(), gate);
        assert(pushed.drop_first() =~= gates.drop_first().push(gate));
        assert forall|other: Seq<char>| other != gate.path@ implies #[trigger] gate_at(
            pushed,
            other,
        ) == gate_at(gates, other) by {
            assert(gate_at(gates.drop_first().push(gate), other) == gate_at(
                gates.drop_first(),
                other,
            ));
        }
    }
}

proof fn gate_missing(gates: Seq<Gate>, path: Seq<char>)
    requires
        forall|k: int| 0 <= k < gates.len() ==> (#[trigger] gates[k]).path@ != path,
    ensures
        gate_at(gates, path) is None,
    decreases gates.len(),
{
    if gates.len() > 0 {
        gate_missing(gates.drop_first(), path);
    }
}

proof fn gate_after_remove(gates: Seq<Gate>, at: int)
    requires
        0 <= at < gates.len(),
        forall|i: int, j: int|
            0 <= i < j < gates.len() ==> (#[trigger] gates[i]).path@ != (
            #[trigger] gates[j]).path@,
    ensures
        gate_at(gates.remove(at), gates[at].path@) is None,
        forall|other: Seq<char>|
            other != gates[at].path@ ==> #[trigger] gate_at(gates.remove(at), other) == gate_at(
                gates,
                other,
            ),
    decreases gates.len(),
{
    let removed = gates.remove(at);
    let path = gates[at].path@;
    assert forall|k: int| 0 <= k < removed.len() implies (#[trigger] removed[k]).path@ != path by {
        if k < at {
            assert(removed[k] == gates[k]);
        } else {
            assert(removed[k] == gates[k + 1]);
        }
    }
    gate_missing(removed, path);
    if at == 0 {
        assert(removed =~= gates.drop_first());
    } else {
        assert forall|i: int, j: int| 0 <= i < j < gates.drop_first().len() implies (
        #[trigger] gates.drop_first()[i]).path@ != (#[trigger] gates.drop_first()[j]).path@ by {
            assert(gates[i + 1].path@ != gates[j + 1].path@);
        }
        gate_after_remove(gates.drop_first(), at - 1);
        assert(removed.drop_first() =~= gates.drop_first().remove(at - 1));
        assert forall|other: Seq<char>| other != path implies #[trigger] gate_at(removed, other)
            == gate_at(gates, other) by {
            assert(gate_at(gates.drop_first().remove(at - 1), other) == gate_at(
                gates.drop_first(),
                other,
            ));
        }
    }
}

/// An older generation never overwrites a newer one: once a newer write was
/// announced for a path, an older one for that path is refused, whatever the
/// epoch.
pub proof fn older_write_is_refused(
    newest: CacheGeneration,
    announced: CacheGeneration,
    writer: CacheGeneration,
)
    requires
        older(writer, announced),
    ensures
        older(writer, later(newest, announced)),
{
}

/// The updates that a launcher has not taken yet, by slot and version.
pub struct ProviderUpdates {
    pub seen: Vec<Option<u64>>,
    pub pending: Vec<(usize, u64)>,
}

/// The slots whose version is new, in order.
pub open spec fn changed_slots(seen: Seq<Option<u64>>, current: Seq<Option<u64>>) -> Seq<
    (usize, u64),
>
    decreases current.len(),
{
    if current.len() == 0 {
        Seq::empty()
    } else {
        let before = changed_slots(seen, current.drop_last());
        let at = current.len() - 1;
        match current.last() {
            Some(version) if seen[at] != Some(version) => before.push((at as usize, version)),
            _ => before,
        }
    }
}

impl ProviderUpdates {
    pub fn new(slots: usize) -> (r: Self)
        ensures
            r.seen@.len() == slots,
            forall|i: int| 0 <= i < slots ==> r.seen@[i] is None,
            r.pending@.len() == 0,
    {
        let mut seen: Vec<Option<u64>> = Vec::new();
        let mut i: usize = 0;
        while i < slots
            invariant
                i <= slots,
                seen@.len() == i,
                forall|k: int| 0 <= k < i ==> seen@[k] is None,
            decreases slots - i,
        {
            seen.push(None);
            i = i + 1;
        }
        ProviderUpdates { seen, pending: Vec::new() }
    }

    /// Queues every slot whose version changed, behind what is queued already.
    pub fn collect_changed(&mut self, current: Vec<Option<u64>>)
        requires
            current@.len() == old(self).seen@.len(),
        ensures
            final(self).seen@ == current@,
            final(self).pending@ == old(self).pending@ + changed_slots(old(self).seen@, current@),
    {
        let ghost first = self.pending@;
        let mut i: usize = 0;
        assert(first + changed_slots(self.seen@, current@.take(0)) =~= first);
        while i < current.len()
            invariant
                i <= current.len(),
                current@.len() == self.seen@.len(),
                self.seen@ == old(self).seen@,
                self.pending@ == first + changed_slots(self.seen@, current@.take(i as int)),
            decreases current.len() - i,
        {
            let ghost before = self.pending@;
            assert(current@.take(i + 1).drop_last() =~= current@.take(i as int));
            if let Some(version) = current[i] {
                let known = match self.seen[i] {
                    Some(last) => last == version,
                    None => false,
                };
                if !known {
                    self.pending.push((i, version));
                    assert(self.pending@ =~= first + changed_slots(
                        self.seen@,
                        current@.take(i as int),
                    ).push((i, version)));
                }
            }
            i = i + 1;
        }
        assert(current@.take(i as int) =~= current@);
        self.seen = current;
    }

    /// The oldest update that was not taken yet.
    pub fn pop(&mut self) -> (r: Option<(usize, u64)>)
        ensures
            final(self).seen@ == old(self).seen@,
            if old(self).pending@.len() == 0 {
                r is None && final(self).pending@ == old(self).pending@
            } else {
                r == Some(old(self).pending@[0]) && final(self).pending@
                    == old(self).pending@.drop_first()
            },
    {
        if self.pending.len() == 0 {
            return None;
        }
        let ghost before = self.pending@;
        let first = self.pending.remove(0);
        assert(self.pending@ =~= before.drop_first());
        Some(first)
    }
}

/// Of two generations the one of the newer manager is newer, and of one manager
/// that with the higher revision; the later of two is not older than either.
pub proof fn generations_are_ordered(a: CacheGeneration, b: CacheGeneration, c: CacheGeneration)
    ensures
        a.manager_epoch < b.manager_epoch ==> older(a, b),
        a.manager_epoch == b.manager_epoch ==> older(a, b) == (a.provider_revision
            < b.provider_revision),
        a.manager_epoch > b.manager_epoch ==> !older(a, b),
        older(a, b) && older(b, c) ==> older(a, c),
        !older(later(a, b), a) && !older(later(a, b), b),
        later(a, b) == a || later(a, b) == b,
{
}

/// A number is kept within its bounds, and changed only where it is outside.
pub proof fn clamped_between(n: int, low: int, high: int)
    requires
        low <= high,
    ensures
        low <= clamped(n, low, high) <= high,
        low <= n <= high ==> clamped(n, low, high) == n,
        n < low ==> clamped(n, low, high) == low,
        n > high ==> clamped(n, low, high) == high,
{
}

/// A provider asks its own machine, by the command and within the time that are
/// configured for it, and gets an equal share of the totals.
pub proof fn providers_ask_their_machine(
    spec: ProviderSpec,
    machine: MachineConfig,
    machines: nat,
    i: int,
)
    requires
        is_spec_of(spec, machine, machines),
        1 <= machines,
    ensures
        spec.name@ == machine.name@,
        spec.argv@.len() == machine.inventory@.len(),
        0 <= i < spec.argv@.len() ==> spec.argv@[i]@ == machine.inventory@[i]@,
        spec.timeout_millis == machine.inventory_timeout_ms,
        spec.machine.name@ == machine.name@,
        spec.machine.launch@.len() == machine.launch@.len(),
        0 <= i < machine.launch@.len() ==> spec.machine.launch@[i]@ == machine.launch@[i]@,
        1 <= spec.max_bytes <= 16777216,
        1 <= spec.max_apps <= 4096,
        machines <= 8 ==> spec.max_bytes == 16777216 && spec.max_apps == 4096,
        8 < machines <= 32768 ==> spec.max_bytes == 134217728int / machines as int && spec.max_apps
            == 32768int / machines as int,
{
    let x = crate::text::texts(spec.argv@);
    let y = crate::text::texts(machine.inventory@);
    assert(x.len() == y.len() && (0 <= i < x.len() ==> x[i] == y[i]));
    crate::config_change::same_machines_agree(spec.machine, machine);
    let n = machines as int;
    let b = 134217728int / n;
    let a = 32768int / n;
    if n <= 8 {
        assert(b >= 16777216 && a >= 4096) by (nonlinear_arith)
            requires
                1 <= n <= 8,
                b == 134217728int / n,
                a == 32768int / n,
        ;
    } else if n <= 32768 {
        assert(1 <= b <= 16777216 && 1 <= a <= 4096) by (nonlinear_arith)
            requires
                8 < n <= 32768,
                b == 134217728int / n,
                a == 32768int / n,
        ;
    }
}

/// The first failure is waited for as long as the policy begins with. Each one
/// more, up to the twenty-first, doubles the wait, and it never grows beyond the
/// policy's maximum.
pub proof fn waits_double(policy: RetryPolicy, failures: u32)
    ensures
        failures <= 1 ==> base_delay(policy, failures) == if policy.initial_millis
            < policy.maximum_millis {
            policy.initial_millis as int
        } else {
            policy.maximum_millis as int
        },
        1 <= failures <= 20 && 2 * base_delay(policy, failures) <= policy.maximum_millis
            ==> base_delay(policy, (failures + 1) as u32) == 2 * base_delay(policy, failures),
        1 <= failures <= 20 && 2 * base_delay(policy, failures) > policy.maximum_millis
            ==> base_delay(policy, (failures + 1) as u32) == policy.maximum_millis,
        failures > 21 ==> base_delay(policy, failures) == base_delay(policy, 21),
{
    assert(doubled(0) == 1);
    assert(policy.initial_millis * 1 == policy.initial_millis);
    if 1 <= failures <= 20 {
        let n = (failures - 1) as nat;
        assert(doubled((n + 1) as nat) == 2 * doubled(n));
        let first = policy.initial_millis as int;
        let factor = doubled(n);
        assert(first * (2 * factor) == 2 * (first * factor)) by (nonlinear_arith);
    }
}

/// A failure is counted, told with its complaint, and waited for; what was read
/// before stays known.
pub proof fn failures_are_told(
    before: ProviderState,
    after: ProviderState,
    spec: ProviderSpec,
    policy: RetryPolicy,
    error: Seq<char>,
    step: Step,
)
    requires
        is_failure_step(before, after, spec, policy, error, step),
    ensures
        before.failures < u32::MAX ==> after.failures == before.failures + 1,
        before.failures == u32::MAX ==> after.failures == u32::MAX,
        !after.last_was_online,
        after.last_digest == before.last_digest,
        after.last_good == before.last_good,
        after.cache_revision == before.cache_revision,
        step.publish is Some,
        step.publish->0.machine@ == spec.name@,
        step.publish->0.status is Offline,
        step.publish->0.error is Some && step.publish->0.error->0@ == error,
        step.publish->0.column is Some <==> before.last_good is Some,
        step.store is None,
        step.wait is Retry,
        step.wait->Retry_0 <= policy.maximum_millis,
{
    delay_is_bounded(policy, spec.name@, after.failures);
    assert(delay_of(policy, spec.name@, after.failures) >= 0) by {
        let base = base_delay(policy, after.failures);
        base_is_positive(policy, after.failures);
        assert(base - base / 4 >= 0);
    }
}

proof fn base_is_positive(policy: RetryPolicy, failures: u32)
    ensures
        base_delay(policy, failures) >= 0,
{
    let steps: nat = if failures <= 1 {
        0
    } else if failures <= 21 {
        (failures - 1) as nat
    } else {
        20
    };
    doubled_grows(0, steps);
    assert(policy.initial_millis * doubled(steps) >= 0) by (nonlinear_arith)
        requires
            policy.initial_millis >= 0,
            doubled(steps) >= 1,
    ;
}

/// A column that a failure is shown on differs from the good one in its error
/// only.
pub proof fn failed_columns_keep_their_contents(column: Machine, error: Seq<char>)
    ensures
        ({
            let shown = with_error(Some(column), error)->0;
            &&& with_error(Some(column), error) is Some
            &&& shown.error == Some(error)
            &&& shown.name == column@.name
            &&& shown.aliases == column@.aliases
            &&& shown.accent == column@.accent
            &&& shown.launch == column@.launch
            &&& shown.cells == column@.cells
        }),
{
}

/// A good answer is told as such, for its machine and without an error.
pub proof fn good_answers_are_told(
    update: Option<ProviderUpdate>,
    spec: ProviderSpec,
    column: Machine,
)
    requires
        is_online_update(update, spec, Some(column@)),
    ensures
        update is Some,
        update->0.machine@ == spec.name@,
        update->0.status is Online,
        update->0.error is None,
        update->0.column is Some,
        update->0.column->0@ == column@,
{
}

/// An answer makes a column only if it decodes, keeps its limits and reports no
/// error of its own; an error of its own is what is told.
pub proof fn reported_errors_are_told(
    machine: MachineConfig,
    decoded: Result<Inventory, String>,
    rows: Seq<Seq<char>>,
    subrows: TextMap<Vec<SubRow>>,
    max_apps: usize,
)
    ensures
        ({
            let r = column_result(machine, decoded, rows, subrows, max_apps);
            &&& r is Ok ==> decoded is Ok && decoded->Ok_0.error is None && r->Ok_0.error is None
                && r->Ok_0.name == machine.name@ && r->Ok_0.cells.len() == rows.len()
            &&& decoded is Ok && decoded->Ok_0.error is Some && crate::inventory::decoded_fault(
                decoded,
                max_apps,
            ) is None ==> r == Err::<crate::column::MachineView, Seq<char>>(
                decoded->Ok_0.error->0@,
            )
        }),
{
}

/// A shortened text ends in a line that says so.
pub proof fn shortened_text_says_so()
    ensures
        truncation_mark().len() == "\n[truncated]"@.len(),
        forall|i: int|
            0 <= i < truncation_mark().len() ==> #[trigger] truncation_mark()[i]
                == "\n[truncated]"@[i] as u32,
{
    reveal_strlit("\n[truncated]");
}

/// A slot is taken up exactly if it has a version that was not seen.
pub proof fn changed_slots_are_taken_up(
    seen: Seq<Option<u64>>,
    current: Seq<Option<u64>>,
    slot: usize,
    version: u64,
)
    requires
        current.len() == seen.len() <= usize::MAX,
    ensures
        changed_slots(seen, current).contains((slot, version)) <==> slot < current.len()
            && current[slot as int] == Some(version) && seen[slot as int] != Some(version),
{
    changed_prefix(seen, current, slot, version);
}

proof fn changed_prefix(
    seen: Seq<Option<u64>>,
    current: Seq<Option<u64>>,
    slot: usize,
    version: u64,
)
    requires
        current.len() <= seen.len() <= usize::MAX,
    ensures
        changed_slots(seen, current).contains((slot, version)) <==> slot < current.len()
            && current[slot as int] == Some(version) && seen[slot as int] != Some(version),
    decreases current.len(),
{
    if current.len() > 0 {
        let fewer = current.drop_last();
        changed_prefix(seen, fewer, slot, version);
        let before = changed_slots(seen, fewer);
        let all = changed_slots(seen, current);
        let at = current.len() - 1;
        if before.contains((slot, version)) {
            let k = choose|k: int| 0 <= k < before.len() && before[k] == (slot, version);
            assert(all[k] == (slot, version));
        }
        if all.len() > before.len() {
            assert(all[before.len() as int] == (at as usize, current.last()->0));
            if all.contains((slot, version)) && !before.contains((slot, version)) {
                let k = choose|k: int| 0 <= k < all.len() && all[k] == (slot, version);
                if k < before.len() {
                    assert(before[k] == (slot, version));
                }
            }
        }
    }
}

/// Of a path, the first entry that is filed under it counts.
pub proof fn first_gate_of_a_path(gates: Seq<Gate>, path: Seq<char>, i: int)
    ensures
        0 <= i < gates.len() && gates[i].path@ == path && (forall|k: int|
            0 <= k < i ==> (#[trigger] gates[k]).path@ != path) ==> gate_at(gates, path) == Some(
            gates[i],
        ),
        (forall|k: int| 0 <= k < gates.len() ==> (#[trigger] gates[k]).path@ != path) ==> gate_at(
            gates,
            path,
        ) is None,
    decreases gates.len(),
{
    if gates.len() > 0 {
        let rest = gates.drop_first();
        first_gate_of_a_path(rest, path, i - 1);
        assert forall|k: int| 0 <= k < rest.len() implies #[trigger] rest[k] == gates[k + 1] by {}
        if forall|k: int| 0 <= k < gates.len() ==> (#[trigger] gates[k]).path@ != path {
            assert(gates[0].path@ != path);
            assert forall|k: int| 0 <= k < rest.len() implies (#[trigger] rest[k]).path@ != path by {
                assert(gates[k + 1].path@ != path);
            }
        }
        if 0 < i < gates.len() && gates[i].path@ == path && (forall|k: int|
            0 <= k < i ==> (#[trigger] gates[k]).path@ != path) {
            assert(gates[0].path@ != path);
            assert forall|k: int| 0 <= k < i - 1 implies (#[trigger] rest[k]).path@ != path by {
                assert(gates[k + 1].path@ != path);
            }
        }
    }
}

/// A path without an entry is held by nobody, and nothing was announced for it.
pub proof fn gates_hold_their_path(gates: CacheGates, path: Seq<char>)
    ensures
        gates.gate(path) is None ==> gates.holders(path) == 0 && gates.newest(path) is None,
        gates.gate(path) is Some ==> gates.holders(path) == gates.gate(path)->0.holders
            && gates.newest(path) == Some(gates.gate(path)->0.newest),
{
}

/// What is said of an answer that is too long or too late names the limits.
pub proof fn limits_are_named(max_bytes: usize, bytes: nat, millis: u64)
    ensures
        oversize_text(max_bytes, bytes) == "inventory exceeded this provider's fair-share limit of "@
            + crate::text::decimal_text(max_bytes as nat) + " bytes ("@ + crate::text::decimal_text(
            bytes,
        ) + " bytes)"@,
        timeout_text(millis) == "inventory timed out after "@ + crate::text::decimal_text(
            millis as nat,
        ) + " ms"@,
{
}

/// Machines that fail together are not asked again together: each waits for a part
/// of the last quarter of the wait that its name and its failures pick.
pub proof fn waits_are_spread(policy: RetryPolicy, machine: Seq<char>, failures: u32)
    ensures
        ({
            let base = base_delay(policy, failures);
            let picked = crate::digest::fnv1a_hash(vstd::utf8::encode_utf8(machine))
                ^ (failures as u64);
            let earliest = base - base / 4;
            delay_of(policy, machine, failures) - earliest == picked as int % (base - earliest + 1)
        }),
{
}

/// Slots are taken up in their order.
pub proof fn changed_slots_in_order(seen: Seq<Option<u64>>, current: Seq<Option<u64>>, i: int, j: int)
    requires
        current.len() <= seen.len() <= usize::MAX,
        0 <= i < j < changed_slots(seen, current).len(),
    ensures
        changed_slots(seen, current)[i].0 < changed_slots(seen, current)[j].0 < current.len(),
    decreases current.len(),
{
    let fewer = current.drop_last();
    let before = changed_slots(seen, fewer);
    let all = changed_slots(seen, current);
    if j < before.len() {
        changed_slots_in_order(seen, fewer, i, j);
        assert(all[i] == before[i] && all[j] == before[j]);
    } else {
        let slot = before[i].0;
        let version = before[i].1;
        assert(before.contains((slot, version)));
        changed_prefix(seen, fewer, slot, version);
        assert(all[i] == before[i]);
    }
}

} // verus!
