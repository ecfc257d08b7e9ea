//! Load campaigns: who takes part, where, and what is asked of the drivers.

use vstd::prelude::*;

use crate::config::{ControllerConfig, IpAddress, SocketAddress};
use crate::text::{decimal, decimal_text, join_text, views};

verus! {

/// The version of the messages between the coordinator and its drivers.
pub const PROTOCOL_VERSION: u8 = 1;

/// How many clients one worker runs at most.
pub const MAX_CLIENTS_PER_WORKER: usize = 512;

/// How many Mumble connections a managed server takes at most.
pub const MAX_MANAGED_CONNECTIONS: usize = 10_000;

/// Whether the coordinator runs the server itself.
#[derive(Debug, Clone, Copy, PartialEq, Eq, Structural)]
pub enum Mode {
    Managed,
    External,
}

/// What a campaign does once everybody is registered.
#[derive(Debug, Clone, Copy, PartialEq, Eq, Structural)]
pub enum Scenario {
    ControlOnly,
    Idle,
    FixedSpaces,
    OneSpace,
    ManySpaces,
    Churn,
    Migration,
    MuteDeaf,
    Voice,
}

impl Scenario {
    pub open spec fn label(self) -> Seq<char> {
        match self {
            Scenario::ControlOnly => "ControlOnly"@,
            Scenario::Idle => "Idle"@,
            Scenario::FixedSpaces => "FixedSpaces"@,
            Scenario::OneSpace => "OneSpace"@,
            Scenario::ManySpaces => "ManySpaces"@,
            Scenario::Churn => "Churn"@,
            Scenario::Migration => "Migration"@,
            Scenario::MuteDeaf => "MuteDeaf"@,
            Scenario::Voice => "Voice"@,
        }
    }

    /// The name of a scenario in results.
    pub fn name(&self) -> (name: &'static str)
        ensures
            name@ == self.label(),
    {
        match self {
            Scenario::ControlOnly => "ControlOnly",
            Scenario::Idle => "Idle",
            Scenario::FixedSpaces => "FixedSpaces",
            Scenario::OneSpace => "OneSpace",
            Scenario::ManySpaces => "ManySpaces",
            Scenario::Churn => "Churn",
            Scenario::Migration => "Migration",
            Scenario::MuteDeaf => "MuteDeaf",
            Scenario::Voice => "Voice",
        }
    }

    /// Whether the campaign waits for credentials, and not only for ownership.
    pub fn connects(&self) -> (connects: bool)
        ensures
            connects == !(*self is ControlOnly),
    {
        match self {
            Scenario::ControlOnly => false,
            _ => true,
        }
    }
}

/// Why a campaign cannot run as asked.
#[derive(Debug, Clone, Copy, PartialEq, Eq, Structural)]
pub enum CampaignError {
    NotDivisible,
    NoFullSpace,
    MissingExternalEndpoints,
    TooManyManagedConnections(usize),
}

impl CampaignError {
    pub open spec fn text(self) -> Seq<char> {
        match self {
            CampaignError::NotDivisible =>
                "--participants must be divisible by --participants-per-space"@,
            CampaignError::NoFullSpace => "at least one full Space is required"@,
            CampaignError::MissingExternalEndpoints =>
                "external mode requires both --controller-endpoint and --mumble-server"@,
            CampaignError::TooManyManagedConnections(asked) => "managed mode allocates at most "@
                + decimal(asked as nat) + " Mumble connections"@,
        }
    }

    pub fn message(&self) -> (message: String)
        ensures
            message@ == self.text(),
    {
        match self {
            CampaignError::NotDivisible =>
                "--participants must be divisible by --participants-per-space".to_owned(),
            CampaignError::NoFullSpace => "at least one full Space is required".to_owned(),
            CampaignError::MissingExternalEndpoints =>
                "external mode requires both --controller-endpoint and --mumble-server".to_owned(),
            CampaignError::TooManyManagedConnections(asked) => {
                let number = decimal_text(*asked as u64);
                join_text(
                    "managed mode allocates at most ",
                    number.as_str(),
                    " Mumble connections",
                )
            },
        }
    }
}

/// Whether a number is a multiple of another; of nothing only nothing is.
pub open spec fn multiple_of(number: nat, factor: nat) -> bool {
    if factor == 0 {
        number == 0
    } else {
        number % factor == 0
    }
}

/// The first thing that keeps a campaign from running.
pub open spec fn campaign_fault(
    mode: Mode,
    endpoint: bool,
    server: bool,
    participants: usize,
    participants_per_space: usize,
) -> Option<CampaignError> {
    if !multiple_of(participants as nat, participants_per_space as nat) {
        Some(CampaignError::NotDivisible)
    } else if participants < participants_per_space {
        Some(CampaignError::NoFullSpace)
    } else if mode == Mode::External && !(endpoint && server) {
        Some(CampaignError::MissingExternalEndpoints)
    } else if mode == Mode::Managed && participants > MAX_MANAGED_CONNECTIONS {
        Some(CampaignError::TooManyManagedConnections(participants))
    } else {
        None
    }
}

/// Rejects what cannot run; `endpoint` and `server` say whether the addresses of
/// an external server were given.
pub fn validate_run_arguments(
    mode: Mode,
    endpoint: bool,
    server: bool,
    participants: usize,
    participants_per_space: usize,
) -> (result: Result<(), CampaignError>)
    ensures
        match campaign_fault(mode, endpoint, server, participants, participants_per_space) {
            None => result is Ok,
            Some(fault) => result == Err::<(), CampaignError>(fault),
        },
{
    let divisible = if participants_per_space == 0 {
        participants == 0
    } else {
        participants % participants_per_space == 0
    };
    if !divisible {
        return Err(CampaignError::NotDivisible);
    }
    if participants < participants_per_space {
        return Err(CampaignError::NoFullSpace);
    }
    match mode {
        Mode::External => if !endpoint || !server {
            return Err(CampaignError::MissingExternalEndpoints);
        },
        Mode::Managed => if participants > MAX_MANAGED_CONNECTIONS {
            return Err(CampaignError::TooManyManagedConnections(participants));
        },
    }
    Ok(())
}

/// The larger of a number and one.
pub open spec fn at_least_one(number: nat) -> nat {
    if number == 0 {
        1
    } else {
        number
    }
}

fn positive(number: usize) -> (result: usize)
    ensures
        result == at_least_one(number as nat),
{
    if number == 0 {
        1
    } else {
        number
    }
}

/// How deep the queues of a managed server are: two commands for each
/// participant, as far as they can be counted, and no less than the usual depth.
pub open spec fn managed_queue(participants: nat) -> nat {
    let twice = if participants * 2 <= usize::MAX {
        participants * 2
    } else {
        usize::MAX as nat
    };
    if twice < 1_024 {
        1_024
    } else {
        twice
    }
}

/// The configuration of a managed server, which listens on free local ports and
/// has room for all participants; none where their number exceeds what the
/// server counts.
pub fn managed_config(participants: usize, controllers: u16) -> (config: Option<ControllerConfig>)
    ensures
        match config {
            None => participants > u32::MAX,
            Some(config) => {
                let local = SocketAddress { ip: IpAddress::V4(127, 0, 0, 1), port: 0 };
                let room = at_least_one(participants as nat);
                &&& participants <= u32::MAX
                &&& config.controller_bind == local
                &&& config.mumble_bind == local
                &&& config.max_sessions == at_least_one(controllers as nat)
                &&& config.max_participants == room
                &&& config.max_participants_per_session == room
                &&& config.max_spaces == room
                &&& config.max_observations_per_session == room
                &&& config.queue_capacity == managed_queue(participants as nat)
                &&& config.max_mumble_connections == room
                &&& config.lease_duration@ == 30 * 1_000_000_000
                &&& config.empty_space_grace@ == 30 * 1_000_000_000
                &&& config.grpc_max_frame_bytes == 4_194_304
                &&& !config.allow_unauthenticated_controller_network
            },
        },
{
    let room: usize = positive(participants);
    if room as u64 > u32::MAX as u64 {
        return None;
    }
    let mut queue: usize = match participants.checked_mul(2) {
        Some(twice) => twice,
        None => usize::MAX,
    };
    if queue < 1_024 {
        queue = 1_024;
    }
    let usual = ControllerConfig::default();
    let local = SocketAddress { ip: IpAddress::V4(127, 0, 0, 1), port: 0 };
    Some(
        ControllerConfig {
            controller_bind: local,
            mumble_bind: local,
            max_sessions: positive(controllers as usize),
            max_participants: room,
            max_participants_per_session: room,
            max_spaces: room,
            max_observations_per_session: room,
            queue_capacity: queue,
            max_mumble_connections: room as u32,
            ..usual
        },
    )
}

/// What one participant of a campaign is to be.
#[derive(Debug, PartialEq, Eq)]
pub struct ParticipantPlan {
    pub participant_id: String,
    pub display_name: String,
    pub space_key: String,
    /// The driver that registers it.
    pub controller: usize,
}

pub struct PlanModel {
    pub participant_id: Seq<char>,
    pub display_name: Seq<char>,
    pub space_key: Seq<char>,
    pub controller: usize,
}

impl View for ParticipantPlan {
    type V = PlanModel;

    open spec fn view(&self) -> PlanModel {
        PlanModel {
            participant_id: self.participant_id@,
            display_name: self.display_name@,
            space_key: self.space_key@,
            controller: self.controller,
        }
    }
}

/// The number of the Space that a participant starts in.
pub open spec fn starting_space(
    index: usize,
    participants_per_space: usize,
    scenario: Scenario,
) -> nat {
    match scenario {
        Scenario::OneSpace => 0,
        Scenario::ManySpaces => index as nat,
        _ => (index / participants_per_space) as nat,
    }
}

/// The driver of a participant: in turn, from where the seed says.
pub open spec fn assigned(index: usize, controllers: usize, seed: u64) -> usize {
    let start = if seed <= usize::MAX {
        seed as usize
    } else {
        0
    };
    (index.wrapping_add(start) % controllers) as usize
}

/// What the participant with a number is to be.
pub open spec fn plan_of(
    index: usize,
    participants_per_space: usize,
    controllers: usize,
    scenario: Scenario,
    seed: u64,
) -> PlanModel {
    PlanModel {
        participant_id: "load-participant-"@ + decimal(index as nat),
        display_name: "Load participant "@ + decimal(index as nat),
        space_key: "load-space-"@ + decimal(
            starting_space(index, participants_per_space, scenario),
        ),
        controller: assigned(index, controllers, seed),
    }
}

/// A text with a number behind it.
fn numbered(prefix: &str, number: usize) -> (text: String)
    ensures
        text@ == prefix@ + decimal(number as nat),
{
    let digits = decimal_text(number as u64);
    let mut text = prefix.to_owned();
    text.append(digits.as_str());
    text
}

/// Who takes part in a campaign. A seed gives the same plans every time.
pub fn participant_plans(
    participants: usize,
    participants_per_space: usize,
    controllers: usize,
    scenario: Scenario,
    seed: u64,
) -> (plans: Vec<ParticipantPlan>)
    requires
        participants > 0 ==> controllers > 0,
        participants > 0 && !(scenario is OneSpace) && !(scenario is ManySpaces)
            ==> participants_per_space > 0,
    ensures
        views(plans@) == Seq::new(
            participants as nat,
            |i: int| plan_of(i as usize, participants_per_space, controllers, scenario, seed),
        ),
{
    let start: usize = if seed <= usize::MAX as u64 {
        seed as usize
    } else {
        0
    };
    let mut plans: Vec<ParticipantPlan> = Vec::new();
    let mut index: usize = 0;
    while index < participants
        invariant
            index <= participants,
            participants > 0 ==> controllers > 0,
            participants > 0 && !(scenario is OneSpace) && !(scenario is ManySpaces)
                ==> participants_per_space > 0,
            start == if seed <= usize::MAX {
                seed as usize
            } else {
                0
            },
            plans@.len() == index,
            forall|i: int|
                0 <= i < index ==> (#[trigger] plans@[i])@ == plan_of(
                    i as usize,
                    participants_per_space,
                    controllers,
                    scenario,
                    seed,
                ),
        decreases participants - index,
    {
        let space: usize = match scenario {
            Scenario::OneSpace => 0,
            Scenario::ManySpaces => index,
            _ => index / participants_per_space,
        };
        let plan = ParticipantPlan {
            participant_id: numbered("load-participant-", index),
            display_name: numbered("Load participant ", index),
            space_key: numbered("load-space-", space),
            controller: index.wrapping_add(start) % controllers,
        };
        plans.push(plan);
        index = index + 1;
    }
    assert(views(plans@) =~= Seq::new(
        participants as nat,
        |i: int| plan_of(i as usize, participants_per_space, controllers, scenario, seed),
    ));
    plans
}

proof fn lemma_decimal_injective(a: nat, b: nat)
    requires
        decimal(a) == decimal(b),
    ensures
        a == b,
    decreases a,
{
    let text = decimal(a);
    if a < 10 && b < 10 {
        assert(text[0] == ('0' as u8 + a) as char);
        assert(text[0] == ('0' as u8 + b) as char);
    } else if a < 10 {
        lemma_decimal_length(b / 10);
        assert(decimal(b).len() == decimal(b / 10).len() + 1);
        assert(text.len() == 1);
    } else if b < 10 {
        lemma_decimal_length(a / 10);
        assert(decimal(a).len() == decimal(a / 10).len() + 1);
    } else {
        assert(decimal(a).drop_last() =~= decimal(a / 10));
        assert(decimal(b).drop_last() =~= decimal(b / 10));
        assert(decimal(a).last() == ('0' as u8 + a % 10) as char);
        assert(decimal(b).last() == ('0' as u8 + b % 10) as char);
        lemma_decimal_injective(a / 10, b / 10);
    }
}

proof fn lemma_decimal_length(n: nat)
    ensures
        decimal(n).len() > 0,
{
}

proof fn lemma_numbered_injective(prefix: Seq<char>, a: nat, b: nat)
    requires
        prefix + decimal(a) == prefix + decimal(b),
    ensures
        a == b,
{
    let text = prefix + decimal(a);
    assert(text.skip(prefix.len() as int) =~= decimal(a));
    assert((prefix + decimal(b)).skip(prefix.len() as int) =~= decimal(b));
    lemma_decimal_injective(a, b);
}

/// No two participants of a campaign are the same, and each has a driver.
pub proof fn participants_are_distinct(
    i: usize,
    j: usize,
    participants_per_space: usize,
    controllers: usize,
    scenario: Scenario,
    seed: u64,
)
    requires
        controllers > 0,
    ensures
        plan_of(i, participants_per_space, controllers, scenario, seed).controller < controllers,
        plan_of(i, participants_per_space, controllers, scenario, seed).participant_id == plan_of(
            j,
            participants_per_space,
            controllers,
            scenario,
            seed,
        ).participant_id ==> i == j,
{
    if plan_of(i, participants_per_space, controllers, scenario, seed).participant_id == plan_of(
        j,
        participants_per_space,
        controllers,
        scenario,
        seed,
    ).participant_id {
        lemma_numbered_injective("load-participant-"@, i as nat, j as nat);
    }
}

/// The participants of a campaign whose Space has the given name.
pub open spec fn members(
    participants: usize,
    participants_per_space: usize,
    controllers: usize,
    scenario: Scenario,
    seed: u64,
    space_key: Seq<char>,
) -> Set<int> {
    Set::new(
        |i: int|
            0 <= i < participants && plan_of(
                i as usize,
                participants_per_space,
                controllers,
                scenario,
                seed,
            ).space_key == space_key,
    )
}

/// Where participants fill whole Spaces, every Space is full: as many start in it
/// as a Space has.
pub proof fn fixed_spaces_are_full(
    participants: usize,
    participants_per_space: usize,
    controllers: usize,
    scenario: Scenario,
    seed: u64,
    space: nat,
)
    requires
        participants_per_space > 0,
        participants % participants_per_space == 0,
        space < participants / participants_per_space,
        !(scenario is OneSpace),
        !(scenario is ManySpaces),
    ensures
        members(
            participants,
            participants_per_space,
            controllers,
            scenario,
            seed,
            "load-space-"@ + decimal(space),
        ).len() == participants_per_space,
        members(
            participants,
            participants_per_space,
            controllers,
            scenario,
            seed,
            "load-space-"@ + decimal(space),
        ).finite(),
{
    let key = "load-space-"@ + decimal(space);
    let all = members(participants, participants_per_space, controllers, scenario, seed, key);
    let n = participants_per_space as int;
    let low = space * n;
    let high = (space + 1) * n;
    let range = vstd::set_lib::set_int_range(low, high);
    vstd::arithmetic::div_mod::lemma_fundamental_div_mod(participants as int, n);
    let whole = participants as int / n;
    assert(high <= participants) by (nonlinear_arith)
        requires
            participants as int == n * whole,
            space + 1 <= whole,
            n > 0,
            high == (space + 1) * n,
    ;
    assert(high - low == n) by (nonlinear_arith)
        requires
            low == space * n,
            high == (space + 1) * n,
    ;
    assert(low >= 0) by (nonlinear_arith)
        requires
            low == space * n,
            n > 0,
            space >= 0,
    ;
    assert forall|i: int| all.contains(i) <==> range.contains(i) by {
        if 0 <= i < participants {
            vstd::arithmetic::div_mod::lemma_fundamental_div_mod(i, n);
            let quotient = i / n;
            let rest = i % n;
            assert(0 <= rest < n) by (nonlinear_arith)
                requires
                    rest == i % n,
                    n > 0,
            ;
            assert(quotient >= 0) by (nonlinear_arith)
                requires
                    quotient == i / n,
                    i >= 0,
                    n > 0,
            ;
            assert(starting_space(i as usize, participants_per_space, scenario) == quotient);
            if all.contains(i) {
                lemma_numbered_injective("load-space-"@, quotient as nat, space);
            }
            if range.contains(i) {
                assert(quotient == space) by (nonlinear_arith)
                    requires
                        i == n * quotient + rest,
                        0 <= rest < n,
                        low == space * n,
                        high == (space + 1) * n,
                        low <= i < high,
                        n > 0,
                ;
            }
            if quotient == space {
                assert(low <= i < high) by (nonlinear_arith)
                    requires
                        i == n * quotient + rest,
                        quotient == space,
                        0 <= rest < n,
                        low == space * n,
                        high == (space + 1) * n,
                ;
            }
        }
    }
    assert(all =~= range);
    vstd::set_lib::lemma_int_range(low, high);
}

/// What a driver is asked to do.
#[derive(Debug, PartialEq, Eq)]
pub enum DriverRequest {
    Register { space_key: String, display_name: String, server_mute: bool, server_deaf: bool },
    SetSpec { space_key: String, display_name: String, server_mute: bool, server_deaf: bool },
    Release,
}

pub enum DriverRequestModel {
    Register {
        space_key: Seq<char>,
        display_name: Seq<char>,
        server_mute: bool,
        server_deaf: bool,
    },
    SetSpec {
        space_key: Seq<char>,
        display_name: Seq<char>,
        server_mute: bool,
        server_deaf: bool,
    },
    Release,
}

impl View for DriverRequest {
    type V = DriverRequestModel;

    open spec fn view(&self) -> DriverRequestModel {
        match *self {
            DriverRequest::Register { space_key, display_name, server_mute, server_deaf } =>
                DriverRequestModel::Register {
                space_key: space_key@,
                display_name: display_name@,
                server_mute,
                server_deaf,
            },
            DriverRequest::SetSpec { space_key, display_name, server_mute, server_deaf } =>
                DriverRequestModel::SetSpec {
                space_key: space_key@,
                display_name: display_name@,
                server_mute,
                server_deaf,
            },
            DriverRequest::Release => DriverRequestModel::Release,
        }
    }
}

/// A command about one participant, for its driver.
#[derive(Debug, PartialEq, Eq)]
pub struct DriverCommand {
    pub controller: usize,
    pub correlation_id: String,
    pub participant_id: String,
    pub request: DriverRequest,
}

pub struct DriverCommandModel {
    pub controller: usize,
    pub correlation_id: Seq<char>,
    pub participant_id: Seq<char>,
    pub request: DriverRequestModel,
}

impl View for DriverCommand {
    type V = DriverCommandModel;

    open spec fn view(&self) -> DriverCommandModel {
        DriverCommandModel {
            controller: self.controller,
            correlation_id: self.correlation_id@,
            participant_id: self.participant_id@,
            request: self.request@,
        }
    }
}

impl PlanModel {
    /// The command that registers a participant.
    pub open spec fn registration(self) -> DriverCommandModel {
        DriverCommandModel {
            controller: self.controller,
            correlation_id: "register-"@ + self.participant_id,
            participant_id: self.participant_id,
            request: DriverRequestModel::Register {
                space_key: self.space_key,
                display_name: self.display_name,
                server_mute: false,
                server_deaf: false,
            },
        }
    }

    /// The command that changes what a participant is to be.
    pub open spec fn change(
        self,
        space_key: Seq<char>,
        server_mute: bool,
        server_deaf: bool,
    ) -> DriverCommandModel {
        DriverCommandModel {
            controller: self.controller,
            correlation_id: "spec-"@ + self.participant_id,
            participant_id: self.participant_id,
            request: DriverRequestModel::SetSpec {
                space_key,
                display_name: self.display_name,
                server_mute,
                server_deaf,
            },
        }
    }

    /// The command that gives a participant up.
    pub open spec fn release(self) -> DriverCommandModel {
        DriverCommandModel {
            controller: self.controller,
            correlation_id: "release-"@ + self.participant_id,
            participant_id: self.participant_id,
            request: DriverRequestModel::Release,
        }
    }
}

/// Two texts in one.
fn joined(a: &str, b: &str) -> (text: String)
    ensures
        text@ == a@ + b@,
{
    let mut text = a.to_owned();
    text.append(b);
    text
}

impl ParticipantPlan {
    fn registration(&self) -> (command: DriverCommand)
        ensures
            command@ == self@.registration(),
    {
        DriverCommand {
            controller: self.controller,
            correlation_id: joined("register-", self.participant_id.as_str()),
            participant_id: self.participant_id.clone(),
            request: DriverRequest::Register {
                space_key: self.space_key.clone(),
                display_name: self.display_name.clone(),
                server_mute: false,
                server_deaf: false,
            },
        }
    }

    fn change(&self, space_key: String, server_mute: bool, server_deaf: bool) -> (command:
        DriverCommand)
        ensures
            command@ == self@.change(space_key@, server_mute, server_deaf),
    {
        DriverCommand {
            controller: self.controller,
            correlation_id: joined("spec-", self.participant_id.as_str()),
            participant_id: self.participant_id.clone(),
            request: DriverRequest::SetSpec {
                space_key,
                display_name: self.display_name.clone(),
                server_mute,
                server_deaf,
            },
        }
    }

    fn release(&self) -> (command: DriverCommand)
        ensures
            command@ == self@.release(),
    {
        DriverCommand {
            controller: self.controller,
            correlation_id: joined("release-", self.participant_id.as_str()),
            participant_id: self.participant_id.clone(),
            request: DriverRequest::Release,
        }
    }
}

/// The commands that register everybody.
pub fn registrations(plans: &[ParticipantPlan]) -> (commands: Vec<DriverCommand>)
    ensures
        views(commands@) == views(plans@).map_values(|plan: PlanModel| plan.registration()),
{
    let mut commands: Vec<DriverCommand> = Vec::new();
    let mut i: usize = 0;
    while i < plans.len()
        invariant
            i <= plans@.len(),
            commands@.len() == i,
            forall|k: int| 0 <= k < i ==> (#[trigger] commands@[k])@ == plans@[k]@.registration(),
        decreases plans@.len() - i,
    {
        commands.push(plans[i].registration());
        i = i + 1;
    }
    assert(views(commands@) =~= views(plans@).map_values(|plan: PlanModel| plan.registration()));
    commands
}

/// What a scenario asks for: everybody moves, or is muted and deafened by turns,
/// or every fourth leaves; other scenarios ask for nothing.
pub open spec fn scenario_commands(scenario: Scenario, plans: Seq<PlanModel>) -> Seq<
    DriverCommandModel,
> {
    match scenario {
        Scenario::Migration => Seq::new(
            plans.len(),
            |i: int| plans[i].change(plans[i].space_key + "-migrated"@, false, false),
        ),
        Scenario::MuteDeaf => Seq::new(
            plans.len(),
            |i: int| plans[i].change(plans[i].space_key, i % 2 == 0, i % 3 == 0),
        ),
        Scenario::Churn => Seq::new(
            ((plans.len() + 3) / 4) as nat,
            |i: int| plans[4 * i].release(),
        ),
        _ => Seq::empty(),
    }
}

/// The commands of a scenario, in the order in which they are sent.
pub fn apply_scenario(scenario: Scenario, plans: &[ParticipantPlan]) -> (commands: Vec<
    DriverCommand,
>)
    ensures
        views(commands@) == scenario_commands(scenario, views(plans@)),
{
    let ghost models = views(plans@);
    let mut commands: Vec<DriverCommand> = Vec::new();
    let mut i: usize = 0;
    while i < plans.len()
        invariant
            i <= plans@.len(),
            models == views(plans@),
            commands@.len() == match scenario {
                Scenario::Migration => i as int,
                Scenario::MuteDeaf => i as int,
                Scenario::Churn => (i + 3) / 4,
                _ => 0,
            },
            forall|k: int|
                0 <= k < commands@.len() ==> (#[trigger] commands@[k])@ == scenario_commands(
                    scenario,
                    models,
                )[k],
        decreases plans@.len() - i,
    {
        let plan = &plans[i];
        match scenario {
            Scenario::Migration => {
                let key = joined(plan.space_key.as_str(), "-migrated");
                commands.push(plan.change(key, false, false));
            },
            Scenario::MuteDeaf => {
                commands.push(plan.change(plan.space_key.clone(), i % 2 == 0, i % 3 == 0));
            },
            Scenario::Churn => if i % 4 == 0 {
                commands.push(plan.release());
            },
            _ => {},
        }
        i = i + 1;
    }
    assert(views(commands@) =~= scenario_commands(scenario, models));
    commands
}

/// A scenario asks only drivers that registered somebody.
pub proof fn a_scenario_asks_known_drivers(scenario: Scenario, plans: Seq<PlanModel>, k: int)
    requires
        0 <= k < scenario_commands(scenario, plans).len(),
    ensures
        exists|i: int|
            0 <= i < plans.len() && (#[trigger] plans[i]).controller == scenario_commands(
                scenario,
                plans,
            )[k].controller && plans[i].participant_id == scenario_commands(
                scenario,
                plans,
            )[k].participant_id,
{
    let i = if scenario is Churn {
        4 * k
    } else {
        k
    };
    assert(plans[i].controller == scenario_commands(scenario, plans)[k].controller);
}

/// The name of a driver.
pub fn controller_id(index: usize) -> (id: String)
    ensures
        id@ == "load-controller-"@ + decimal(index as nat),
{
    numbered("load-controller-", index)
}

/// Why a worker does not start.
#[derive(Debug, Clone, Copy, PartialEq, Eq, Structural)]
pub enum WorkerError {
    TalkPercent,
    TooManyCredentials,
    NoCredentials,
}

impl WorkerError {
    pub open spec fn text(self) -> Seq<char> {
        match self {
            WorkerError::TalkPercent => "--talk-percent must be at most 100"@,
            WorkerError::TooManyCredentials => "worker credential limit exceeded"@,
            WorkerError::NoCredentials => "worker received no credentials"@,
        }
    }

    pub fn message(&self) -> (message: String)
        ensures
            message@ == self.text(),
    {
        match self {
            WorkerError::TalkPercent => "--talk-percent must be at most 100".to_owned(),
            WorkerError::TooManyCredentials => "worker credential limit exceeded".to_owned(),
            WorkerError::NoCredentials => "worker received no credentials".to_owned(),
        }
    }
}

/// Rejects a share of talkers above all of them.
pub fn check_talk_percent(talk_percent: u8) -> (result: Result<(), WorkerError>)
    ensures
        result == if talk_percent <= 100 {
            Ok::<(), WorkerError>(())
        } else {
            Err(WorkerError::TalkPercent)
        },
{
    if talk_percent <= 100 {
        Ok(())
    } else {
        Err(WorkerError::TalkPercent)
    }
}

/// How many clients a worker runs for the credentials it received.
pub fn worker_clients(credentials: usize) -> (result: Result<usize, WorkerError>)
    ensures
        result == if credentials > MAX_CLIENTS_PER_WORKER {
            Err::<usize, WorkerError>(WorkerError::TooManyCredentials)
        } else if credentials == 0 {
            Err(WorkerError::NoCredentials)
        } else {
            Ok(credentials)
        },
{
    if credentials > MAX_CLIENTS_PER_WORKER {
        Err(WorkerError::TooManyCredentials)
    } else if credentials == 0 {
        Err(WorkerError::NoCredentials)
    } else {
        Ok(credentials)
    }
}

/// The credentials of one worker: a range of them.
#[derive(Debug, Clone, Copy, PartialEq, Eq, Structural)]
pub struct WorkerBatch {
    pub start: usize,
    pub end: usize,
}

/// How many workers there are for a number of credentials.
pub open spec fn worker_count(credentials: nat) -> nat {
    ((credentials + MAX_CLIENTS_PER_WORKER - 1) / MAX_CLIENTS_PER_WORKER as int) as nat
}

/// The credentials of a worker: as many as it can run, or what is left.
pub open spec fn worker_batch(credentials: nat, worker: int) -> (int, int) {
    let start = worker * MAX_CLIENTS_PER_WORKER;
    let full = start + MAX_CLIENTS_PER_WORKER;
    (
        start,
        if full <= credentials {
            full
        } else {
            credentials as int
        },
    )
}

/// Shares credentials out among workers, in order.
pub fn worker_batches(credentials: usize) -> (batches: Vec<WorkerBatch>)
    ensures
        batches@.len() == worker_count(credentials as nat),
        forall|i: int|
            0 <= i < batches@.len() ==> ((#[trigger] batches@[i]).start as int, batches@[i].end as int)
                == worker_batch(credentials as nat, i),
{
    let mut batches: Vec<WorkerBatch> = Vec::new();
    let mut start: usize = 0;
    while start < credentials
        invariant
            start <= credentials,
            start == batches@.len() * MAX_CLIENTS_PER_WORKER || start == credentials,
            start == credentials ==> batches@.len() == worker_count(credentials as nat),
            start < credentials ==> start == batches@.len() * MAX_CLIENTS_PER_WORKER,
            forall|i: int|
                0 <= i < batches@.len() ==> ((#[trigger] batches@[i]).start as int, batches@[i].end as int)
                    == worker_batch(credentials as nat, i),
        decreases credentials - start,
    {
        let end: usize = if credentials - start > MAX_CLIENTS_PER_WORKER {
            start + MAX_CLIENTS_PER_WORKER
        } else {
            credentials
        };
        batches.push(WorkerBatch { start, end });
        start = end;
    }
    batches
}

/// Every batch is one that a worker runs.
pub proof fn every_batch_fits_a_worker(credentials: nat, worker: int)
    requires
        0 <= worker < worker_count(credentials),
    ensures
        ({
            let batch = worker_batch(credentials, worker);
            1 <= batch.1 - batch.0 <= MAX_CLIENTS_PER_WORKER
        }),
{
}

/// The batches follow one another, and together hold every credential.
pub proof fn batches_cover_all_credentials(credentials: nat, worker: int)
    requires
        0 <= worker < worker_count(credentials),
    ensures
        worker_batch(credentials, 0).0 == 0,
        worker + 1 < worker_count(credentials) ==> worker_batch(credentials, worker).1
            == worker_batch(credentials, worker + 1).0,
        worker + 1 == worker_count(credentials) ==> worker_batch(credentials, worker).1
            == credentials,
{
}

/// A campaign runs exactly where its participants fill at least one Space and no Space in
/// part, where an external server has both its addresses, and where a managed one can
/// take them all.
pub proof fn a_campaign_runs_where_it_is_whole(
    mode: Mode,
    endpoint: bool,
    server: bool,
    participants: usize,
    participants_per_space: usize,
    spaces: nat,
)
    requires
        participants_per_space > 0,
    ensures
        ({
            let fault = campaign_fault(mode, endpoint, server, participants, participants_per_space);
            &&& fault is None ==> participants >= participants_per_space
            &&& fault is None ==> participants == participants_per_space * (participants
                / participants_per_space)
            &&& fault is None && mode == Mode::External ==> endpoint && server
            &&& fault is None && mode == Mode::Managed ==> participants <= MAX_MANAGED_CONNECTIONS
            &&& participants == participants_per_space * spaces && spaces > 0 && (mode
                == Mode::External ==> endpoint && server) && (mode == Mode::Managed ==> participants
                <= MAX_MANAGED_CONNECTIONS) ==> fault is None
        }),
{
    let n = participants as int;
    let d = participants_per_space as int;
    vstd::arithmetic::div_mod::lemma_fundamental_div_mod(n, d);
    if n == d * spaces && spaces > 0 {
        vstd::arithmetic::div_mod::lemma_mod_multiples_basic(spaces as int, d);
        assert(spaces * d == d * spaces) by (nonlinear_arith);
        assert(d * spaces >= d) by (nonlinear_arith)
            requires
                spaces > 0,
                d > 0,
        ;
    }
}

/// The queues of a managed server take two commands of everybody, and 1024 in any case.
pub proof fn managed_queues_are_deep_enough(participants: nat)
    requires
        participants * 2 <= usize::MAX,
    ensures
        managed_queue(participants) >= 2 * participants,
        managed_queue(participants) >= 1024,
        managed_queue(participants) == 1024 || managed_queue(participants) == 2 * participants,
{
}

/// Neighbours are driven in turn: the next participant has the next driver, and after the
/// last one the first.
pub proof fn drivers_take_turns(index: usize, controllers: usize, seed: u64)
    requires
        controllers > 0,
        seed <= usize::MAX,
        index + 1 + seed <= usize::MAX,
    ensures
        assigned(0, controllers, seed) == seed as int % controllers as int,
        assigned((index + 1) as usize, controllers, seed) == (assigned(index, controllers, seed) + 1)
            % controllers as int,
{
    let n = controllers as int;
    let a = index + seed;
    vstd::arithmetic::div_mod::lemma_add_mod_noop(a, 1, n);
    vstd::arithmetic::div_mod::lemma_mod_twice(a, n);
    vstd::arithmetic::div_mod::lemma_add_mod_noop(a % n, 1, n);
}

/// Two participants start in one Space exactly where the scenario says so: all of them in
/// one, each in its own, or as many as a Space has, in order.
pub proof fn participants_share_a_space_as_the_scenario_says(
    i: usize,
    j: usize,
    participants_per_space: usize,
    controllers: usize,
    scenario: Scenario,
    seed: u64,
)
    requires
        participants_per_space > 0,
        controllers > 0,
    ensures
        ({
            let a = plan_of(i, participants_per_space, controllers, scenario, seed);
            let b = plan_of(j, participants_per_space, controllers, scenario, seed);
            a.space_key == b.space_key <==> match scenario {
                Scenario::OneSpace => true,
                Scenario::ManySpaces => i == j,
                _ => i / participants_per_space == j / participants_per_space,
            }
        }),
{
    let a = starting_space(i, participants_per_space, scenario);
    let b = starting_space(j, participants_per_space, scenario);
    if plan_of(i, participants_per_space, controllers, scenario, seed).space_key == plan_of(
        j,
        participants_per_space,
        controllers,
        scenario,
        seed,
    ).space_key {
        lemma_numbered_injective("load-space-"@, a, b);
    }
}

/// A plan is registered as it is: its own driver is asked, for its participant, under its
/// name and in its Space, neither muted nor deaf.
pub proof fn a_plan_is_registered_as_it_is(plan: PlanModel)
    ensures
        ({
            let command = plan.registration();
            &&& command.controller == plan.controller
            &&& command.participant_id == plan.participant_id
            &&& command.request matches DriverRequestModel::Register {
                space_key,
                display_name,
                server_mute,
                server_deaf,
            } && space_key == plan.space_key && display_name == plan.display_name && !server_mute
                && !server_deaf
        }),
{
}

/// A migration moves everybody into another Space, unmuted. Muting leaves everybody where
/// they are, mutes every second one and deafens every third, from the first on. Churn
/// releases every fourth, from the first on, and nobody else. Each is asked of the
/// participant's own driver, and keeps its name. Other scenarios ask for nothing.
pub proof fn a_scenario_does_what_its_name_says(scenario: Scenario, plans: Seq<PlanModel>, i: int)
    requires
        0 <= i < plans.len(),
    ensures
        ({
            let commands = scenario_commands(scenario, plans);
            match scenario {
                Scenario::Migration => {
                    &&& commands.len() == plans.len()
                    &&& commands[i].participant_id == plans[i].participant_id
                    &&& commands[i].controller == plans[i].controller
                    &&& commands[i].request matches DriverRequestModel::SetSpec {
                        space_key,
                        display_name,
                        server_mute,
                        server_deaf,
                    } && space_key != plans[i].space_key && plans[i].space_key.is_prefix_of(
                        space_key,
                    ) && display_name == plans[i].display_name && !server_mute && !server_deaf
                },
                Scenario::MuteDeaf => {
                    &&& commands.len() == plans.len()
                    &&& commands[i].participant_id == plans[i].participant_id
                    &&& commands[i].controller == plans[i].controller
                    &&& commands[i].request matches DriverRequestModel::SetSpec {
                        space_key,
                        display_name,
                        server_mute,
                        server_deaf,
                    } && space_key == plans[i].space_key && display_name == plans[i].display_name
                        && (server_mute <==> i % 2 == 0) && (server_deaf <==> i % 3 == 0)
                },
                Scenario::Churn => {
                    &&& 4 * commands.len() >= plans.len()
                    &&& 4 * commands.len() < plans.len() + 4
                    &&& i % 4 == 0 ==> i / 4 < commands.len() && commands[i / 4].participant_id
                        == plans[i].participant_id && commands[i / 4].controller
                        == plans[i].controller && commands[i / 4].request is Release
                },
                _ => commands.len() == 0,
            }
        }),
{
    reveal_strlit("-migrated");
    if scenario is Migration {
        let moved = plans[i].space_key + "-migrated"@;
        assert(moved.len() == plans[i].space_key.len() + 9);
        assert(plans[i].space_key.is_prefix_of(moved)) by {
            assert(moved.take(plans[i].space_key.len() as int) =~= plans[i].space_key);
        }
    }
}

/// Every worker but the last runs 512 clients, and a managed server takes ten thousand.
pub proof fn workers_are_full_but_for_the_last(credentials: nat, worker: int)
    requires
        0 <= worker,
        worker + 1 < worker_count(credentials),
    ensures
        worker_batch(credentials, worker) == (512 * worker, 512 * worker + 512),
        MAX_MANAGED_CONNECTIONS == 10_000,
        PROTOCOL_VERSION == 1,
{
}

} // verus!
