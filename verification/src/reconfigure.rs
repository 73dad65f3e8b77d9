//! Putting a changed configuration to use: it is saved in the settings file, and then
//! the bridge is told.
use crate::client::{
    answered_config, config_in_reply, is_status_list, read_statuses, update_config_call,
    BridgeCall, ServerStatus,
};
use crate::json::{copy, exact, members, parsed, pretty_printed, READ_DEPTH};
use crate::settings::{
    document_in, is_settings_text, settings_text, the_settings_file_keeps_everything_else,
};
use serde_json::Value;
use vstd::prelude::*;

verus! {

/// How far it has come.
#[derive(Debug)]
pub enum Stage {
    /// The servers are being written to the settings file.
    Saving(Value),
    /// The servers are saved, and the bridge is being brought up.
    Ensuring(Value),
    /// The bridge is being told.
    Telling,
    /// It has come to an end.
    Ended,
}

/// What happened on the way.
#[derive(Debug)]
pub enum UpdateEvent {
    /// The settings file was written, or could not be.
    Written(Result<(), String>),
    /// There is a bridge in use, or none can be had.
    Ensured(Result<(), String>),
    /// The bridge was told and has replied, or it failed.
    Told(Result<Value, String>),
}

/// What the bridge has made of the configuration.
#[derive(Debug)]
pub struct Outcome {
    /// The configuration that the bridge works with.
    pub config: Value,
    /// How the servers stand, unless the bridge is an old one.
    pub statuses: Option<Vec<ServerStatus>>,
}

/// What to do next.
#[derive(Debug)]
pub enum UpdateAction {
    /// Write the text to the settings file.
    Write(String),
    /// Bring the bridge up.
    EnsureBridge,
    /// Tell the bridge.
    Tell(BridgeCall),
    /// Answer the one who wanted the change.
    Answer(Result<Outcome, String>),
}

/// The stage that an event leads to, and `None` for an event that has no place in the
/// stage.
pub open spec fn next_stage(stage: Stage, event: UpdateEvent) -> Option<Stage> {
    match (stage, event) {
        (Stage::Saving(servers), UpdateEvent::Written(result)) => Some(
            if result is Ok {
                Stage::Ensuring(servers)
            } else {
                Stage::Ended
            },
        ),
        (Stage::Ensuring(_), UpdateEvent::Ensured(result)) => Some(
            if result is Ok {
                Stage::Telling
            } else {
                Stage::Ended
            },
        ),
        (Stage::Telling, UpdateEvent::Told(_)) => Some(Stage::Ended),
        _ => None,
    }
}

/// The call hands the bridge those servers.
pub open spec fn tells(call: BridgeCall, servers: Value) -> bool {
    call.method@ == "updateConfig"@ && members(call.params) == Some(map!["config"@ => servers])
}

/// The action answers the event. An error is passed on as it is.
pub open spec fn is_update_answer(
    action: UpdateAction,
    stage: Stage,
    event: UpdateEvent,
) -> bool {
    match event {
        UpdateEvent::Written(Ok(_)) => action is EnsureBridge,
        UpdateEvent::Written(Err(e)) => action == UpdateAction::Answer(Err(e)),
        UpdateEvent::Ensured(Ok(_)) => stage matches Stage::Ensuring(servers) && (action matches
            UpdateAction::Tell(call) && tells(call, servers)),
        UpdateEvent::Ensured(Err(e)) => action == UpdateAction::Answer(Err(e)),
        UpdateEvent::Told(Ok(reply)) => action matches UpdateAction::Answer(Ok(outcome))
            && outcome.config == answered_config(reply) && is_status_list(outcome.statuses, reply),
        UpdateEvent::Told(Err(e)) => action == UpdateAction::Answer(Err(e)),
    }
}

/// The text is the settings file with the servers put in.
pub open spec fn saves(text: Seq<char>, content: Option<Seq<char>>, servers: Value) -> bool {
    exists|document: Value| #[trigger]
        is_settings_text(text, document, document_in(content), servers)
}

/// The first step: the servers are put into the settings file, whose content is given
/// where it could be read.
pub fn begin_update(content: Option<&str>, servers: Value) -> (r: (Stage, UpdateAction))
    ensures
        r.0 == Stage::Saving(servers),
        r.1 matches UpdateAction::Write(text) && saves(text@, content.deep_view(), servers),
{
    let text = settings_text(content, copy(&servers));
    let action = UpdateAction::Write(text);
    assert(saves(text@, content.deep_view(), servers));
    (Stage::Saving(servers), action)
}

/// Every step after the first. The bridge is told only when the servers are saved, and
/// it is told the servers that were saved.
pub fn continue_update(stage: Stage, event: UpdateEvent) -> (r: (Stage, UpdateAction))
    requires
        next_stage(stage, event) is Some,
    ensures
        next_stage(stage, event) == Some(r.0),
        is_update_answer(r.1, stage, event),
{
    match (stage, event) {
        (Stage::Saving(servers), UpdateEvent::Written(Ok(_))) => (
            Stage::Ensuring(servers),
            UpdateAction::EnsureBridge,
        ),
        (_, UpdateEvent::Written(Err(e))) => (Stage::Ended, UpdateAction::Answer(Err(e))),
        (Stage::Ensuring(servers), UpdateEvent::Ensured(Ok(_))) => (
            Stage::Telling,
            UpdateAction::Tell(update_config_call(servers)),
        ),
        (_, UpdateEvent::Ensured(Err(e))) => (Stage::Ended, UpdateAction::Answer(Err(e))),
        (_, UpdateEvent::Told(Ok(reply))) => {
            let statuses = read_statuses(&reply);
            let config = config_in_reply(reply);
            (Stage::Ended, UpdateAction::Answer(Ok(Outcome { config, statuses })))
        },
        (_, UpdateEvent::Told(Err(e))) => (Stage::Ended, UpdateAction::Answer(Err(e))),
        _ => vstd::pervasive::unreached(),
    }
}

/// The stage that a run of events leads to, and `None` where an event has no place.
pub open spec fn stage_after(servers: Value, events: Seq<UpdateEvent>) -> Option<Stage>
    decreases events.len(),
{
    if events.len() == 0 {
        Some(Stage::Saving(servers))
    } else {
        match stage_after(servers, events.drop_last()) {
            Some(stage) => next_stage(stage, events.last()),
            None => None,
        }
    }
}

/// The servers that a stage speaks of are the ones that the update began with.
proof fn lemma_same_servers(servers: Value, events: Seq<UpdateEvent>)
    ensures
        stage_after(servers, events) matches Some(Stage::Saving(now)) ==> now == servers
            && events.len() == 0,
        stage_after(servers, events) matches Some(Stage::Ensuring(now)) ==> now == servers
            && events.len() == 1 && (events[0] matches UpdateEvent::Written(Ok(_))),
    decreases events.len(),
{
    if events.len() > 0 {
        lemma_same_servers(servers, events.drop_last());
    }
}

/// The bridge is told only where the settings file was written and then a bridge was
/// there, and what it is told are the servers that were saved.
pub proof fn the_bridge_is_told_what_was_saved(
    servers: Value,
    events: Seq<UpdateEvent>,
    stage: Stage,
    event: UpdateEvent,
    action: UpdateAction,
    call: BridgeCall,
)
    requires
        stage_after(servers, events) == Some(stage),
        next_stage(stage, event) is Some,
        is_update_answer(action, stage, event),
        action == UpdateAction::Tell(call),
    ensures
        tells(call, servers),
        events.len() == 1,
        events[0] matches UpdateEvent::Written(Ok(_)),
        event matches UpdateEvent::Ensured(Ok(_)),
{
    lemma_same_servers(servers, events);
}

/// A configuration that could not be saved is told to nobody: the one who wanted the
/// change gets the error, and it is the end.
pub proof fn what_is_not_saved_is_not_told(
    servers: Value,
    error: String,
    action: UpdateAction,
    event: UpdateEvent,
)
    requires
        is_update_answer(
            action,
            Stage::Saving(servers),
            UpdateEvent::Written(Err::<(), String>(error)),
        ),
    ensures
        action == UpdateAction::Answer(Err(error)),
        next_stage(Stage::Saving(servers), UpdateEvent::Written(Err::<(), String>(error))) == Some(
            Stage::Ended,
        ),
        next_stage(Stage::Ended, event) is None,
{
}

/// How an update goes, step by step. The servers that are saved are the ones that the
/// bridge is told, under `config` and with nothing else. Every error is the answer as it
/// is, and a reply is answered with the configuration in it and how the servers stand.
pub proof fn an_update_goes_in_order(
    servers: Value,
    reply: Value,
    config: Value,
    e: String,
    action: UpdateAction,
)
    ensures
        next_stage(Stage::Saving(servers), UpdateEvent::Written(Ok(()))) == Some(
            Stage::Ensuring(servers),
        ),
        is_update_answer(action, Stage::Saving(servers), UpdateEvent::Written(Ok(())))
            ==> action is EnsureBridge,
        next_stage(Stage::Ensuring(servers), UpdateEvent::Ensured(Ok(()))) == Some(Stage::Telling),
        is_update_answer(action, Stage::Ensuring(servers), UpdateEvent::Ensured(Ok(()))) ==> (
        action matches UpdateAction::Tell(call) && call.method@ == "updateConfig"@ && (members(
            call.params,
        ) matches Some(m) && m.len() == 1 && m.contains_pair("config"@, servers))),
        next_stage(Stage::Telling, UpdateEvent::Told(Ok(reply))) == Some(Stage::Ended),
        is_update_answer(action, Stage::Telling, UpdateEvent::Told(Ok(reply))) ==> (action matches
            UpdateAction::Answer(Ok(outcome)) && is_status_list(outcome.statuses, reply) && (
        members(reply) matches Some(m) ==> (m.contains_pair("config"@, config) ==> outcome.config
            == config) && (!m.contains_key("config"@) ==> outcome.config == reply)) && (members(
            reply,
        ) is None ==> outcome.config == reply)),
        next_stage(Stage::Saving(servers), UpdateEvent::Written(Err(e))) == Some(Stage::Ended),
        is_update_answer(action, Stage::Saving(servers), UpdateEvent::Written(Err(e))) ==> action
            == UpdateAction::Answer(Err(e)),
        next_stage(Stage::Ensuring(servers), UpdateEvent::Ensured(Err(e))) == Some(Stage::Ended),
        is_update_answer(action, Stage::Ensuring(servers), UpdateEvent::Ensured(Err(e))) ==> action
            == UpdateAction::Answer(Err(e)),
        next_stage(Stage::Telling, UpdateEvent::Told(Err(e))) == Some(Stage::Ended),
        is_update_answer(action, Stage::Telling, UpdateEvent::Told(Err(e))) ==> action
            == UpdateAction::Answer(Err(e)),
{
    let one = map!["config"@ => servers];
    assert(one.dom() =~= Set::<Seq<char>>::empty().insert("config"@));
    assert(one.dom().len() == 1);
}

/// What is written first is the settings file with the servers under `mcpServers`.
pub proof fn an_update_is_saved_under_its_key(
    text: Seq<char>,
    content: Option<Seq<char>>,
    servers: Value,
)
    requires
        saves(text, content, servers),
        content is None || parsed(content->0) is None || members(parsed(content->0)->0) is Some,
    ensures
        exists|document: Value| #[trigger]
            pretty_printed(document) == text && (members(document) matches Some(m)
                && m.contains_pair("mcpServers"@, servers)),
        exact(servers, (READ_DEPTH - 1) as nat) ==> (parsed(text) matches Some(w) && (members(
            w,
        ) matches Some(m) && m.contains_pair("mcpServers"@, servers))),
{
    let document = choose|document: Value| #[trigger]
        is_settings_text(text, document, document_in(content), servers);
    the_settings_file_keeps_everything_else(text, document, content, servers, Seq::empty());
    assert(pretty_printed(document) == text);
}

} // verus!
