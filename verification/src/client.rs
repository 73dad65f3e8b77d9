//! The MCP client of the shell: the calls that it makes over the bridge, how the
//! bridge is brought up, and what its replies say about the servers.
use crate::json::{
    as_array, as_object, as_str, copy, elements, exact, get, insert, keys, map_members, member,
    member_text, members, new_map, object, string, string_text,
};
use crate::servers::ServerConfigs;
use crate::text::same_text;
use serde_json::Value;
use vstd::prelude::*;

verus! {

/// A call of a tool of a server.
#[derive(Debug, Clone, Default)]
pub struct ToolCallParams {
    pub server_name: String,
    pub tool_name: String,
    pub tool_arguments: Option<Value>,
}

/// The server whose tools are asked for.
#[derive(Debug, Clone, Default)]
pub struct ToolListParams {
    pub server_name: String,
}

/// A call that is made over the bridge.
#[derive(Debug)]
pub struct BridgeCall {
    pub method: String,
    pub params: Value,
}

/// The value is a string with that text.
pub open spec fn is_text(v: Value, text: Seq<char>) -> bool {
    string_text(v) == Some(text)
}

/// The call that asks a server for its tools.
pub fn mcp_client_tool_list(params: &ToolListParams) -> (r: BridgeCall)
    ensures
        r.method@ == "listTools"@,
        members(r.params) matches Some(m) && m.dom() == set!["serverName"@] && is_text(
            m["serverName"@],
            params.server_name@,
        ),
        exact(r.params, 1),
{
    let mut fields = new_map();
    insert(&mut fields, "serverName".to_owned(), string(params.server_name.clone()));
    let params = object(fields);
    proof {
        assert(members(params)->0.dom() =~= set!["serverName"@]);
        assert(exact(members(params)->0["serverName"@], 0));
    }
    BridgeCall { method: "listTools".to_owned(), params }
}

/// The call of a tool. Its arguments are left out where there are none.
pub fn mcp_client_tool_call(params: ToolCallParams) -> (r: BridgeCall)
    ensures
        r.method@ == "callTool"@,
        members(r.params) matches Some(m) && m.dom() == (match params.tool_arguments {
            Some(_) => set!["serverName"@, "toolName"@, "toolArguments"@],
            None => set!["serverName"@, "toolName"@],
        }) && is_text(m["serverName"@], params.server_name@) && is_text(
            m["toolName"@],
            params.tool_name@,
        ) && (params.tool_arguments matches Some(arguments) ==> m["toolArguments"@] == arguments),
        match params.tool_arguments {
            Some(arguments) => forall|depth: nat| #[trigger]
                exact(arguments, depth) ==> exact(r.params, depth + 1),
            None => exact(r.params, 1),
        },
{
    proof {
        reveal_strlit("serverName");
        reveal_strlit("toolName");
        reveal_strlit("toolArguments");
        assert("serverName"@.len() == 10 && "toolName"@.len() == 8 && "toolArguments"@.len() == 13);
    }
    let mut fields = new_map();
    insert(&mut fields, "serverName".to_owned(), string(params.server_name));
    insert(&mut fields, "toolName".to_owned(), string(params.tool_name));
    let ghost given = params.tool_arguments;
    if let Some(arguments) = params.tool_arguments {
        insert(&mut fields, "toolArguments".to_owned(), arguments);
    }
    let payload = object(fields);
    proof {
        let all = members(payload)->0;
        match given {
            Some(arguments) => {
                assert(all.dom() =~= set!["serverName"@, "toolName"@, "toolArguments"@]);
                assert forall|depth: nat| #[trigger] exact(arguments, depth) implies exact(
                    payload,
                    depth + 1,
                ) by {
                    assert(exact(all["serverName"@], depth));
                    assert(exact(all["toolName"@], depth));
                }
            },
            None => {
                assert(all.dom() =~= set!["serverName"@, "toolName"@]);
                assert(exact(all["serverName"@], 0));
                assert(exact(all["toolName"@], 0));
            },
        }
    }
    BridgeCall { method: "callTool".to_owned(), params: payload }
}

/// The call that hands the bridge its configuration.
pub fn update_config_call(config: Value) -> (r: BridgeCall)
    ensures
        r.method@ == "updateConfig"@,
        members(r.params) == Some(map!["config"@ => config]),
        forall|depth: nat| #[trigger] exact(config, depth) ==> exact(r.params, depth + 1),
{
    let mut fields = new_map();
    insert(&mut fields, "config".to_owned(), config);
    let params = object(fields);
    assert(members(params)->0 =~= map!["config"@ => config]);
    BridgeCall { method: "updateConfig".to_owned(), params }
}

/// How many tools a reply lists.
pub fn tool_count(reply: &Value) -> (r: usize)
    ensures
        r == (match member(*reply, "tools"@) {
            Some(tools) => match elements(tools) {
                Some(list) => list.len(),
                None => 0,
            },
            None => 0,
        }),
{
    match get(reply, "tools") {
        Some(tools) => match as_array(tools) {
            Some(list) => list.len(),
            None => 0,
        },
        None => 0,
    }
}

/// The configuration in a reply of the bridge: what it holds under `config`, and
/// the reply itself where it holds nothing there, which is how older bridges
/// answer.
pub open spec fn answered_config(reply: Value) -> Value {
    match member(reply, "config"@) {
        Some(config) => config,
        None => reply,
    }
}

/// The configuration in a reply of the bridge.
pub fn config_in_reply(reply: Value) -> (r: Value)
    ensures
        r == answered_config(reply),
{
    match get(&reply, "config") {
        Some(config) => copy(config),
        None => reply,
    }
}

/// How a server stands: connected, or not and why.
#[derive(Debug)]
pub struct ServerStatus {
    pub name: String,
    /// Why the server is not connected, and `None` if it is.
    pub error: Option<String>,
}

/// Why a server is not connected, from its entry in the status report; `None` if
/// it is.
pub open spec fn status_error(status: Value) -> Option<Seq<char>> {
    if member_text(status, "status"@) == Some("connected"@) {
        None
    } else {
        match member_text(status, "error"@) {
            Some(error) => Some(error),
            None => Some("unknown error"@),
        }
    }
}

/// The list tells of each server in the report once, what its entry says, and of
/// no other.
pub open spec fn is_report(list: Seq<ServerStatus>, report: Map<Seq<char>, Value>) -> bool {
    &&& forall|i: int|
        0 <= i < list.len() ==> report.contains_key((#[trigger] list[i]).name@)
            && list[i].error.deep_view() == status_error(report[list[i].name@])
    &&& forall|i: int, j: int|
        0 <= i < j < list.len() ==> (#[trigger] list[i]).name@ != (#[trigger] list[j]).name@
    &&& forall|name: Seq<char>| #[trigger]
        report.contains_key(name) ==> exists|i: int|
            0 <= i < list.len() && (#[trigger] list[i]).name@ == name
}

/// The status report in a reply of the bridge.
pub open spec fn statuses_in(reply: Value) -> Option<Map<Seq<char>, Value>> {
    match member(reply, "statuses"@) {
        Some(statuses) => members(statuses),
        None => None,
    }
}

/// The list tells how the servers stand according to a reply; there is none where the
/// reply has no status report.
pub open spec fn is_status_list(list: Option<Vec<ServerStatus>>, reply: Value) -> bool {
    match list {
        Some(list) => statuses_in(reply) matches Some(report) && is_report(list@, report),
        None => statuses_in(reply) is None,
    }
}

/// The text of the string under `key`.
fn text_under(v: &Value, key: &str) -> (r: Option<String>)
    ensures
        r.deep_view() == member_text(*v, key@),
{
    match get(v, key) {
        Some(w) => match as_str(w) {
            Some(text) => Some(text.to_owned()),
            None => None,
        },
        None => None,
    }
}

/// Why a server is not connected, from its entry in the status report; `None` if
/// it is.
pub fn status_of(status: &Value) -> (r: Option<String>)
    ensures
        r.deep_view() == status_error(*status),
{
    let connected = match text_under(status, "status") {
        Some(text) => same_text(text.as_str(), "connected"),
        None => false,
    };
    if connected {
        None
    } else {
        match text_under(status, "error") {
            Some(error) => Some(error),
            None => Some("unknown error".to_owned()),
        }
    }
}

/// How the servers stand, from the reply of the bridge to its configuration. A
/// reply without a status report, which older bridges give, tells nothing.
pub fn read_statuses(reply: &Value) -> (r: Option<Vec<ServerStatus>>)
    ensures
        is_status_list(r, *reply),
{
    let statuses = match get(reply, "statuses") {
        Some(statuses) => statuses,
        None => return None,
    };
    let report = match as_object(statuses) {
        Some(report) => report,
        None => return None,
    };
    let names = keys(report);
    let ghost entries = map_members(*report);
    let mut list: Vec<ServerStatus> = Vec::new();
    let mut i: usize = 0;
    while i < names.len()
        invariant
            i <= names@.len(),
            list@.len() == i,
            entries == map_members(*report),
            members(*statuses) == Some(entries),
            forall|k: int| 0 <= k < names@.len() ==> entries.contains_key((#[trigger] names@[k])@),
            forall|k: int|
                0 <= k < i ==> (#[trigger] list@[k]).name@ == names@[k]@
                    && list@[k].error.deep_view() == status_error(entries[names@[k]@]),
        decreases names@.len() - i,
    {
        assert(entries.contains_key(names@[i as int]@));
        let error = match get(statuses, names[i].as_str()) {
            Some(status) => status_of(status),
            None => vstd::pervasive::unreached(),
        };
        list.push(ServerStatus { name: names[i].clone(), error });
        i = i + 1;
    }
    proof {
        assert forall|a: int, b: int| 0 <= a < b < list@.len() implies (#[trigger] list@[a]).name@
            != (#[trigger] list@[b]).name@ by {
            assert(names@[a]@ != names@[b]@);
        }
        assert forall|name: Seq<char>| #[trigger] entries.contains_key(name) implies exists|i: int|
            0 <= i < list@.len() && (#[trigger] list@[i]).name@ == name by {
            let k = choose|k: int| 0 <= k < names@.len() && (#[trigger] names@[k])@ == name;
            assert(list@[k].name@ == name);
        }
    }
    Some(list)
}

/// How many of the servers are connected.
pub open spec fn connected_among(list: Seq<ServerStatus>) -> nat
    decreases list.len(),
{
    if list.len() == 0 {
        0
    } else {
        connected_among(list.drop_last()) + if list.last().error is None {
            1nat
        } else {
            0nat
        }
    }
}

/// How many of the servers are connected, and how many are not.
pub fn tally(list: &Vec<ServerStatus>) -> (r: (usize, usize))
    ensures
        r.0 == connected_among(list@),
        r.0 + r.1 == list@.len(),
{
    let mut up: usize = 0;
    let mut i: usize = 0;
    assert(list@.take(0) =~= Seq::empty());
    while i < list.len()
        invariant
            up <= i <= list@.len(),
            up == connected_among(list@.take(i as int)),
        decreases list@.len() - i,
    {
        assert(list@.take(i + 1).drop_last() =~= list@.take(i as int));
        if list[i].error.is_none() {
            up = up + 1;
        }
        i = i + 1;
    }
    assert(list@.take(list@.len() as int) =~= list@);
    (up, list.len() - up)
}

/// The bridge that is in use, if there is one.
#[derive(Debug)]
pub struct McpState<B> {
    bridge: Option<B>,
}

impl<B> View for McpState<B> {
    type V = Option<B>;

    closed spec fn view(&self) -> Option<B> {
        self.bridge
    }
}

impl<B> McpState<B> {
    /// No bridge is in use yet.
    pub fn new() -> (r: Self)
        ensures
            r@ == None::<B>,
    {
        McpState { bridge: None }
    }

    /// The bridge that is in use.
    pub fn bridge(&self) -> (r: Option<&B>)
        ensures
            match r {
                Some(bridge) => self@ == Some(*bridge),
                None => self@ is None,
            },
    {
        self.bridge.as_ref()
    }
}

/// How far bringing up the bridge has come.
#[derive(Debug)]
pub enum Phase<B> {
    /// Nothing was done yet.
    Looking,
    /// Waiting for the process of a bridge to start.
    Spawning,
    /// Waiting for the configuration of the new bridge.
    Loading(B),
    /// Waiting for the new bridge to take the configuration.
    Configuring(B),
    /// The bridge in use is used again.
    Reused,
    /// The new bridge is used from now on.
    Kept,
    /// There is no bridge.
    Failed,
}

/// What happened on the way.
#[derive(Debug)]
pub enum BridgeEvent<B> {
    /// A bridge is wanted.
    Asked,
    /// A bridge was started, or could not be.
    Spawned(Result<B, String>),
    Loaded(Result<ServerConfigs, String>),
    Configured(Result<Value, String>),
}

/// What to do next.
#[derive(Debug)]
pub enum BridgeAction {
    /// Use the bridge that is in use already.
    Reuse,
    Spawn,
    LoadConfig,
    /// Hand the new bridge its configuration.
    SendConfig(ServerConfigs),
    /// Use the new bridge. The statuses of its servers are there unless it is an old
    /// one.
    Keep(Option<Vec<ServerStatus>>),
    Fail(String),
}

/// The bridge in use and the phase that an event leads to, and `None` for an event that
/// has no place in the phase. The new bridge is in use once it has taken the
/// configuration, and not before.
pub open spec fn next_phase<B>(
    in_use: Option<B>,
    phase: Phase<B>,
    event: BridgeEvent<B>,
) -> Option<(Option<B>, Phase<B>)> {
    match (phase, event) {
        (Phase::Looking, BridgeEvent::Asked) => Some(
            (
                in_use,
                if in_use is Some {
                    Phase::Reused
                } else {
                    Phase::Spawning
                },
            ),
        ),
        (Phase::Spawning, BridgeEvent::Spawned(Ok(bridge))) => Some(
            (in_use, Phase::Loading(bridge)),
        ),
        (Phase::Spawning, BridgeEvent::Spawned(Err(_))) => Some((in_use, Phase::Failed)),
        (Phase::Loading(bridge), BridgeEvent::Loaded(Ok(_))) => Some(
            (in_use, Phase::Configuring(bridge)),
        ),
        (Phase::Loading(_), BridgeEvent::Loaded(Err(_))) => Some((in_use, Phase::Failed)),
        (Phase::Configuring(bridge), BridgeEvent::Configured(Ok(_))) => Some(
            (Some(bridge), Phase::Kept),
        ),
        (Phase::Configuring(_), BridgeEvent::Configured(Err(_))) => Some((in_use, Phase::Failed)),
        _ => None,
    }
}

/// The action answers the event.
pub open spec fn is_answer<B>(
    action: BridgeAction,
    in_use: Option<B>,
    event: BridgeEvent<B>,
) -> bool {
    match event {
        BridgeEvent::Asked => if in_use is Some {
            action is Reuse
        } else {
            action is Spawn
        },
        BridgeEvent::Spawned(Ok(_)) => action is LoadConfig,
        BridgeEvent::Spawned(Err(e)) => action matches BridgeAction::Fail(reason) && reason@
            == "Bridge spawn: "@ + e@,
        BridgeEvent::Loaded(Ok(config)) => action == BridgeAction::SendConfig(config),
        BridgeEvent::Loaded(Err(e)) => action == BridgeAction::Fail(e),
        BridgeEvent::Configured(Ok(reply)) => action matches BridgeAction::Keep(statuses)
            && is_status_list(statuses, reply),
        BridgeEvent::Configured(Err(e)) => action matches BridgeAction::Fail(reason) && reason@
            == "Bridge config: "@ + e@,
    }
}

/// One step of bringing up the bridge. The bridge in use is used again. Without one, a
/// bridge is started and given the configuration, and it is in use only once it has
/// taken it; a failure on the way gives it up.
pub fn ensure_bridge<B>(
    state: &mut McpState<B>,
    phase: Phase<B>,
    event: BridgeEvent<B>,
) -> (r: (Phase<B>, BridgeAction))
    requires
        next_phase(old(state)@, phase, event) is Some,
    ensures
        next_phase(old(state)@, phase, event) == Some((final(state)@, r.0)),
        is_answer(r.1, old(state)@, event),
{
    match (phase, event) {
        (_, BridgeEvent::Asked) => {
            if state.bridge.is_some() {
                (Phase::Reused, BridgeAction::Reuse)
            } else {
                (Phase::Spawning, BridgeAction::Spawn)
            }
        },
        (_, BridgeEvent::Spawned(Ok(bridge))) => (
            Phase::Loading(bridge),
            BridgeAction::LoadConfig,
        ),
        (_, BridgeEvent::Spawned(Err(e))) => (
            Phase::Failed,
            BridgeAction::Fail("Bridge spawn: ".to_owned().concat(e.as_str())),
        ),
        (Phase::Loading(bridge), BridgeEvent::Loaded(Ok(config))) => (
            Phase::Configuring(bridge),
            BridgeAction::SendConfig(config),
        ),
        (_, BridgeEvent::Loaded(Err(e))) => (Phase::Failed, BridgeAction::Fail(e)),
        (Phase::Configuring(bridge), BridgeEvent::Configured(Ok(reply))) => {
            let statuses = read_statuses(&reply);
            state.bridge = Some(bridge);
            (Phase::Kept, BridgeAction::Keep(statuses))
        },
        (_, BridgeEvent::Configured(Err(e))) => (
            Phase::Failed,
            BridgeAction::Fail("Bridge config: ".to_owned().concat(e.as_str())),
        ),
        _ => vstd::pervasive::unreached(),
    }
}

/// What happened while the bridge is closed.
#[derive(Debug)]
pub enum CloseEvent {
    /// The bridge is to be closed.
    Asked,
    /// The bridge was told; it answered, or it could not be told.
    Told(Result<Value, String>),
}

/// What to do next.
#[derive(Debug)]
pub enum CloseAction {
    /// Tell the bridge in use.
    Tell(BridgeCall),
    /// This is what closing came to.
    Done(Result<(), String>),
}

/// The bridge in use after an event of closing: it is told first, and then it is out of
/// use, whatever it says.
pub open spec fn after_closing<B>(in_use: Option<B>, event: CloseEvent) -> Option<B> {
    match event {
        CloseEvent::Asked => in_use,
        CloseEvent::Told(_) => None,
    }
}

/// The action answers the event: a bridge in use is told to let go of its servers, and
/// otherwise closing has succeeded.
pub open spec fn is_close_answer<B>(
    action: CloseAction,
    in_use: Option<B>,
    event: CloseEvent,
) -> bool {
    if event is Asked && in_use is Some {
        action matches CloseAction::Tell(call) && call.method@ == "disconnect"@ && members(
            call.params,
        ) == Some(Map::<Seq<char>, Value>::empty())
    } else {
        action matches CloseAction::Done(Ok(_))
    }
}

/// One step of closing the bridge. A bridge in use is told to let go of its servers.
/// Whether that succeeds, it is out of use then, and closing has succeeded.
pub fn mcp_client_close<B>(state: &mut McpState<B>, event: CloseEvent) -> (r: CloseAction)
    ensures
        final(state)@ == after_closing(old(state)@, event),
        is_close_answer(r, old(state)@, event),
{
    match event {
        CloseEvent::Asked => {
            if state.bridge.is_some() {
                CloseAction::Tell(
                    BridgeCall { method: "disconnect".to_owned(), params: object(new_map()) },
                )
            } else {
                CloseAction::Done(Ok(()))
            }
        },
        CloseEvent::Told(_) => {
            state.bridge = None;
            CloseAction::Done(Ok(()))
        },
    }
}

/// The bridge in use and the phase that a run of events leads to, and `None` where an
/// event has no place.
pub open spec fn course<B>(in_use: Option<B>, events: Seq<BridgeEvent<B>>) -> Option<
    (Option<B>, Phase<B>),
>
    decreases events.len(),
{
    if events.len() == 0 {
        Some((in_use, Phase::Looking))
    } else {
        match course(in_use, events.drop_last()) {
            Some((now, phase)) => next_phase(now, phase, events.last()),
            None => None,
        }
    }
}

/// The bridge in use after one course of bringing it up after the other, and `None`
/// where an event has no place.
pub open spec fn after_courses<B>(
    in_use: Option<B>,
    courses: Seq<Seq<BridgeEvent<B>>>,
) -> Option<Option<B>>
    decreases courses.len(),
{
    if courses.len() == 0 {
        Some(in_use)
    } else {
        match after_courses(in_use, courses.drop_last()) {
            Some(now) => match course(now, courses.last()) {
                Some((then, _)) => Some(then),
                None => None,
            },
            None => None,
        }
    }
}

/// A new bridge is in use only where none was in use before, it was started, the
/// configuration was loaded, and it has taken that configuration, in this order. And it
/// is the bridge that was started.
pub proof fn a_bridge_is_kept_only_when_configured<B>(
    in_use: Option<B>,
    events: Seq<BridgeEvent<B>>,
    now: Option<B>,
)
    requires
        course(in_use, events) == Some((now, Phase::<B>::Kept)),
    ensures
        in_use is None,
        events.len() == 4,
        events[0] is Asked,
        events[1] matches BridgeEvent::Spawned(Ok(bridge)) && now == Some(bridge),
        events[2] matches BridgeEvent::Loaded(Ok(_)),
        events[3] matches BridgeEvent::Configured(Ok(_)),
{
    let e3 = events.drop_last();
    let e2 = e3.drop_last();
    let e1 = e2.drop_last();
    let e0 = e1.drop_last();
    reveal_with_fuel(course, 5);
    lemma_course_starts(in_use, e0);
}

/// Before the first event nothing was done, and nothing is undone later.
proof fn lemma_course_starts<B>(in_use: Option<B>, events: Seq<BridgeEvent<B>>)
    requires
        course(in_use, events) matches Some((_, phase)) && phase is Looking,
    ensures
        events.len() == 0,
        course(in_use, events) == Some((in_use, Phase::<B>::Looking)),
{
}

/// What is in use changes only when a new bridge is kept: on the way there, and where
/// bringing one up has failed, it is what was in use before.
pub proof fn only_a_kept_bridge_comes_into_use<B>(
    in_use: Option<B>,
    events: Seq<BridgeEvent<B>>,
    now: Option<B>,
    phase: Phase<B>,
)
    requires
        course(in_use, events) == Some((now, phase)),
        !(phase is Kept),
    ensures
        now == in_use,
    decreases events.len(),
{
    if events.len() > 0 {
        let (before, previous) = course(in_use, events.drop_last())->0;
        only_a_kept_bridge_comes_into_use(in_use, events.drop_last(), before, previous);
    }
}

/// A bridge in use is used again: to ask for one leads to that bridge at once, and
/// nothing else can happen. No bridge is started and no configuration is sent.
pub proof fn the_bridge_in_use_is_reused<B>(
    bridge: B,
    events: Seq<BridgeEvent<B>>,
    now: Option<B>,
    phase: Phase<B>,
)
    requires
        course(Some(bridge), events) == Some((now, phase)),
        events.len() > 0,
    ensures
        now == Some(bridge),
        phase is Reused,
        events.len() == 1 && events[0] is Asked,
        forall|action: BridgeAction| #[trigger]
            is_answer(action, Some(bridge), events[0]) <==> action is Reuse,
    decreases events.len(),
{
    let before = events.drop_last();
    if before.len() > 0 {
        let (then, previous) = course(Some(bridge), before)->0;
        the_bridge_in_use_is_reused(bridge, before, then, previous);
    }
}

/// However often a bridge is asked for, the one in use stays in use.
pub proof fn the_bridge_in_use_stays_in_use<B>(bridge: B, courses: Seq<Seq<BridgeEvent<B>>>)
    requires
        after_courses(Some(bridge), courses) is Some,
    ensures
        after_courses(Some(bridge), courses) == Some(Some(bridge)),
    decreases courses.len(),
{
    if courses.len() > 0 {
        the_bridge_in_use_stays_in_use(bridge, courses.drop_last());
        let (now, phase) = course(Some(bridge), courses.last())->0;
        if courses.last().len() > 0 {
            the_bridge_in_use_is_reused(bridge, courses.last(), now, phase);
        }
    }
}

/// The bridge that one asking led to is the one that every later asking leads to, as
/// long as it is not closed: at once, with nothing started and nothing sent.
pub proof fn the_same_bridge_is_found_again<B>(
    in_use: Option<B>,
    first: Seq<BridgeEvent<B>>,
    now: Option<B>,
    phase: Phase<B>,
    between: Seq<Seq<BridgeEvent<B>>>,
    action: BridgeAction,
)
    requires
        course(in_use, first) == Some((now, phase)),
        phase is Kept || phase is Reused,
        after_courses(now, between) is Some,
        is_answer(action, after_courses(now, between)->0, BridgeEvent::Asked),
    ensures
        now is Some,
        after_courses(now, between) == Some(now),
        next_phase(after_courses(now, between)->0, Phase::Looking, BridgeEvent::Asked) == Some(
            (now, Phase::<B>::Reused),
        ),
        action is Reuse,
{
    the_bridge_in_use_stays_in_use(now->0, between);
}

/// A failure is final, and so are a bridge that is reused and one that is kept: no
/// event has a place after them.
pub proof fn the_end_is_final<B>(in_use: Option<B>, phase: Phase<B>, event: BridgeEvent<B>)
    requires
        phase is Failed || phase is Reused || phase is Kept,
    ensures
        next_phase(in_use, phase, event) is None,
{
}

/// Closing ends with no bridge in use and with success, whether there was one and
/// whatever it answered. To close once more tells nobody, and to ask for a bridge then
/// starts a new one.
pub proof fn closing_puts_the_bridge_out_of_use<B>(
    in_use: Option<B>,
    reply: Result<Value, String>,
    first: CloseAction,
    second: CloseAction,
    third: CloseAction,
)
    requires
        is_close_answer(first, in_use, CloseEvent::Asked),
        is_close_answer(
            second,
            after_closing(in_use, CloseEvent::Asked),
            CloseEvent::Told(reply),
        ),
        is_close_answer(third, None::<B>, CloseEvent::Asked),
    ensures
        first is Tell <==> in_use is Some,
        first is Done ==> after_closing(in_use, CloseEvent::Asked) is None,
        first is Done ==> (first matches CloseAction::Done(Ok(_))),
        after_closing(after_closing(in_use, CloseEvent::Asked), CloseEvent::Told(reply)) is None,
        second matches CloseAction::Done(Ok(_)),
        third matches CloseAction::Done(Ok(_)),
        next_phase(None::<B>, Phase::Looking, BridgeEvent::Asked) == Some(
            (None::<B>, Phase::<B>::Spawning),
        ),
{
}

/// The value is a string with that text and no other.
pub proof fn texts_are_strings(v: Value, text: Seq<char>, other: Seq<char>)
    ensures
        is_text(v, text) <==> string_text(v) == Some(text),
        is_text(v, text) && is_text(v, other) ==> text == other,
{
}

/// The configuration that a reply speaks of is what it holds under `config`, and the
/// whole reply where it holds nothing there.
pub proof fn a_reply_speaks_of_its_config(reply: Value, config: Value)
    ensures
        members(reply) matches Some(m) ==> (m.contains_pair("config"@, config) ==> answered_config(
            reply,
        ) == config),
        members(reply) matches Some(m) ==> (!m.contains_key("config"@) ==> answered_config(reply)
            == reply),
        members(reply) is None ==> answered_config(reply) == reply,
{
}

/// A server is connected exactly where the text under `status` in its entry says so.
/// Otherwise the text under `error` is the reason, or a remark where there is none.
pub proof fn a_server_stands_as_its_entry_says(status: Value, told: Seq<char>)
    ensures
        ({
            let fields = members(status)->0;
            let connected = members(status) is Some && fields.contains_key("status"@)
                && string_text(fields["status"@]) == Some("connected"@);
            let explained = members(status) is Some && fields.contains_key("error"@)
                && string_text(fields["error"@]) is Some;
            &&& connected <==> status_error(status) is None
            &&& !connected && explained && string_text(fields["error"@]) == Some(told)
                ==> status_error(status) == Some(told)
            &&& !connected && !explained ==> status_error(status) == Some("unknown error"@)
        }),
{
}

/// A report tells of every server that the reply names, of none other, and of each once;
/// and of each it tells what the entry under its name says.
pub proof fn a_report_tells_of_every_server(
    list: Option<Vec<ServerStatus>>,
    reply: Value,
    report: Map<Seq<char>, Value>,
    name: Seq<char>,
)
    requires
        is_status_list(list, reply),
    ensures
        list is Some <==> (members(reply) matches Some(m) && m.contains_key("statuses"@) && members(
            m["statuses"@],
        ) is Some),
        members(reply) matches Some(m) ==> (m.contains_key("statuses"@) && members(
            m["statuses"@],
        ) == Some(report) && report.contains_key(name) ==> exists|i: int|
            0 <= i < (list->0)@.len() && (#[trigger] (list->0)@[i]).name@ == name && (list->0)@[
                i
            ].error.deep_view() == status_error(report[name])),
        members(reply) matches Some(m) ==> (m.contains_key("statuses"@) && members(
            m["statuses"@],
        ) == Some(report) ==> forall|i: int|
            0 <= i < (list->0)@.len() ==> report.contains_key((#[trigger] (list->0)@[i]).name@)),
        list is Some ==> forall|i: int, j: int|
            0 <= i < (list->0)@.len() && 0 <= j < (list->0)@.len() && i != j ==> (#[trigger] (
            list->0)@[i]).name@ != (#[trigger] (list->0)@[j]).name@,
{
    if let Some(m) = members(reply) {
        if m.contains_key("statuses"@) && members(m["statuses"@]) == Some(report)
            && report.contains_key(name) {
            let i = choose|i: int| 0 <= i < (list->0)@.len() && (#[trigger] (list->0)@[i]).name@
                == name;
            assert((list->0)@[i].name@ == name);
        }
    }
}

/// The servers that are counted as connected are those without an error.
pub proof fn the_connected_have_no_error(
    a: Seq<ServerStatus>,
    b: Seq<ServerStatus>,
    one: ServerStatus,
)
    ensures
        connected_among(a + b) == connected_among(a) + connected_among(b),
        connected_among(seq![one]) == (if one.error is None {
            1nat
        } else {
            0nat
        }),
        connected_among(a) <= a.len(),
    decreases a.len() + b.len(),
{
    reveal_with_fuel(connected_among, 2);
    assert(seq![one].drop_last() =~= Seq::empty());
    if b.len() == 0 {
        assert(a + b =~= a);
        if a.len() > 0 {
            the_connected_have_no_error(a.drop_last(), b, one);
        }
    } else {
        the_connected_have_no_error(a, b.drop_last(), one);
        assert((a + b).drop_last() =~= a + b.drop_last());
        assert((a + b).last() == b.last());
    }
}

/// How bringing up a bridge goes, step by step. Each step leads to the next one as long
/// as it succeeds, with the bridge that was started, and every failure is the end, with
/// its reason passed on whole. The bridge is in use when it has taken the configuration.
pub proof fn a_bridge_is_brought_up_in_order<B>(
    in_use: Option<B>,
    bridge: B,
    config: ServerConfigs,
    reply: Value,
    e: String,
    action: BridgeAction,
)
    ensures
        next_phase(in_use, Phase::Looking, BridgeEvent::Asked) == Some(
            (
                in_use,
                if in_use is Some {
                    Phase::<B>::Reused
                } else {
                    Phase::<B>::Spawning
                },
            ),
        ),
        is_answer(action, in_use, BridgeEvent::<B>::Asked) <==> (if in_use is Some {
            action is Reuse
        } else {
            action is Spawn
        }),
        next_phase(in_use, Phase::Spawning, BridgeEvent::Spawned(Ok(bridge))) == Some(
            (in_use, Phase::Loading(bridge)),
        ),
        is_answer(action, in_use, BridgeEvent::Spawned(Ok(bridge))) <==> action is LoadConfig,
        next_phase(in_use, Phase::Loading(bridge), BridgeEvent::Loaded(Ok(config))) == Some(
            (in_use, Phase::Configuring(bridge)),
        ),
        is_answer(action, in_use, BridgeEvent::<B>::Loaded(Ok(config))) <==> action
            == BridgeAction::SendConfig(config),
        next_phase(in_use, Phase::Configuring(bridge), BridgeEvent::Configured(Ok(reply))) == Some(
            (Some(bridge), Phase::<B>::Kept),
        ),
        is_answer(action, in_use, BridgeEvent::<B>::Configured(Ok(reply))) ==> (action matches
            BridgeAction::Keep(statuses) && is_status_list(statuses, reply)),
        next_phase(in_use, Phase::Spawning, BridgeEvent::<B>::Spawned(Err(e))) == Some(
            (in_use, Phase::<B>::Failed),
        ),
        is_answer(action, in_use, BridgeEvent::<B>::Spawned(Err(e))) ==> (action matches
            BridgeAction::Fail(reason) && reason@ == "Bridge spawn: "@ + e@),
        next_phase(in_use, Phase::Loading(bridge), BridgeEvent::Loaded(Err(e))) == Some(
            (in_use, Phase::<B>::Failed),
        ),
        is_answer(action, in_use, BridgeEvent::<B>::Loaded(Err(e))) ==> action
            == BridgeAction::Fail(e),
        next_phase(in_use, Phase::Configuring(bridge), BridgeEvent::Configured(Err(e))) == Some(
            (in_use, Phase::<B>::Failed),
        ),
        is_answer(action, in_use, BridgeEvent::<B>::Configured(Err(e))) ==> (action matches
            BridgeAction::Fail(reason) && reason@ == "Bridge config: "@ + e@),
{
}

/// What a bridge in use is told when it is closed: to disconnect, with nothing to add.
pub proof fn closing_tells_the_bridge_to_disconnect<B>(
    bridge: B,
    action: CloseAction,
    call: BridgeCall,
)
    requires
        is_close_answer(action, Some(bridge), CloseEvent::Asked),
    ensures
        action is Tell,
        action == CloseAction::Tell(call) ==> call.method@ == "disconnect"@ && (members(
            call.params,
        ) matches Some(m) && m.dom() == Set::<Seq<char>>::empty()),
        after_closing(Some(bridge), CloseEvent::Asked) == Some(bridge),
{
    if action == CloseAction::Tell(call) {
        assert(members(call.params)->0.dom() =~= Set::empty());
    }
}

} // verus!
