//! The line protocol of the MCP bridge.
//!
//! Each request is one line of JSON with a number of its own; the bridge answers
//! with a line that carries the same number. This module numbers and frames the
//! requests, keeps the callers that wait, and matches the replies to them. The
//! pipes themselves are the caller's.
use crate::json::{
    as_str, as_u64, copy, exact, get, insert, member, member_text, members, new_map, number, object,
    parse, parsed, print, printed, string, string_text, unsigned, READ_DEPTH,
};
use crate::text::{
    contains, has_infix, is_space, needles_stand_between, split, split_on, trim, trimmed,
    trimming_undoes_padding,
};
use serde_json::Value;
use std::borrow::Cow;
use std::collections::HashMap;
use vstd::prelude::*;
use vstd::utf8::{decode_utf8, valid_utf8};

verus! {

/// How long a caller waits for a reply, in seconds.
pub const REQUEST_TIMEOUT_SECS: u64 = 60;

/// The lower-case form that `str::to_lowercase` gives a text.
pub uninterp spec fn lowercase(s: Seq<char>) -> Seq<char>;

/// `str::to_lowercase` of the standard library: the result depends on the text
/// alone.
pub assume_specification[ str::to_lowercase ](s: &str) -> (r: String)
    ensures
        r@ == lowercase(s@),
;

/// The text that `String::from_utf8_lossy` reads from bytes.
pub uninterp spec fn lossy_text(bytes: Seq<u8>) -> Seq<char>;

/// `String::from_utf8_lossy` of the standard library: the result depends on the
/// bytes alone, and valid UTF-8 is read as what it encodes. What stands for
/// invalid bytes is left to the name.
pub assume_specification[ String::from_utf8_lossy ](v: &[u8]) -> (r: Cow<'_, str>)
    ensures
        r@ == lossy_text(v@),
        valid_utf8(v@) ==> r@ == decode_utf8(v@),
;

/// A request that is ready to be written to the bridge.
#[derive(Debug)]
pub struct Request {
    pub id: u64,
    pub line: String,
}

/// A reply of the bridge: the number of the request that it answers, and the
/// result or the message of the error.
#[derive(Debug)]
pub struct Reply {
    pub id: u64,
    pub outcome: Result<Value, String>,
}

/// What waiting for a reply came to.
#[derive(Debug)]
pub enum Waited {
    TimedOut,
    ChannelClosed,
    Replied(Result<Value, String>),
}

/// A result with its error text as a sequence of characters.
pub open spec fn outcome_model(outcome: Result<Value, String>) -> Result<Value, Seq<char>> {
    match outcome {
        Ok(v) => Ok(v),
        Err(e) => Err(e@),
    }
}

/// The model of a reply.
pub open spec fn reply_model(reply: Reply) -> (u64, Result<Value, Seq<char>>) {
    (reply.id, outcome_model(reply.outcome))
}

/// The message is the request with that number: an object of the number, the
/// method and the parameters, and of nothing else.
pub open spec fn is_request(message: Value, id: u64, method: Seq<char>, params: Value) -> bool {
    &&& members(message) matches Some(m)
    &&& m.dom() == set!["id"@, "method"@, "params"@]
    &&& unsigned(m["id"@]) == Some(id)
    &&& string_text(m["method"@]) == Some(method)
    &&& m["params"@] == params
}

/// How deep the parameters of a request may be to be read from it.
pub open spec fn params_depth() -> nat {
    (READ_DEPTH - 1) as nat
}

/// The line is the message in JSON, ended by its only line feed.
pub open spec fn is_line_of(line: Seq<char>, message: Value) -> bool {
    &&& line == printed(message).push('\n')
    &&& !printed(message).contains('\n')
}

/// The number that follows `n` steps after `start`. The numbers start again from
/// zero behind the greatest.
pub open spec fn number_after(start: u64, n: nat) -> u64 {
    ((start + n) % (u64::MAX + 1)) as u64
}

/// The line is the request with that number. Where JSON text carries the parameters
/// unchanged, what stands before the line feed reads back as the request.
pub open spec fn is_request_line(
    line: Seq<char>,
    id: u64,
    method: Seq<char>,
    params: Value,
) -> bool {
    exists|message: Value| #[trigger]
        is_request(message, id, method, params) && is_line_of(line, message) && (exact(
            params,
            params_depth(),
        ) ==> parsed(line.drop_last()) == Some(message))
}

/// A connection to the bridge: the number of the next request, and under the number of
/// each request in flight the one who waits for its reply.
pub ghost struct BridgeModel<S> {
    pub next_id: u64,
    pub waiting: Map<u64, S>,
}

/// A request that was sent, and who waits for its reply.
pub ghost struct SentModel<S> {
    pub id: u64,
    pub line: Seq<char>,
    pub method: Seq<char>,
    pub params: Value,
    pub waiter: S,
}

/// Sending leads from `before` to `after`: the request has the next number, its line is
/// that request, and its reply is waited for.
pub open spec fn sends<S>(
    before: BridgeModel<S>,
    after: BridgeModel<S>,
    sent: SentModel<S>,
) -> bool {
    &&& sent.id == before.next_id
    &&& is_request_line(sent.line, sent.id, sent.method, sent.params)
    &&& after.next_id == number_after(before.next_id, 1)
    &&& after.waiting == before.waiting.insert(sent.id, sent.waiter)
}

/// The connection when nobody waits for the request any more.
pub open spec fn settled<S>(before: BridgeModel<S>, id: u64) -> BridgeModel<S> {
    BridgeModel { next_id: before.next_id, waiting: before.waiting.remove(id) }
}

/// The connection when nobody waits any more.
pub open spec fn abandoned<S>(before: BridgeModel<S>) -> BridgeModel<S> {
    BridgeModel { next_id: before.next_id, waiting: Map::empty() }
}

/// The message of an error object, and a remark in its place where it has none.
pub open spec fn error_message(error: Value) -> Seq<char> {
    match member_text(error, "message"@) {
        Some(message) => message,
        None => "unknown error"@,
    }
}

/// The number of a message, where it has one.
pub open spec fn message_id(message: Value) -> Option<u64> {
    match member(message, "id"@) {
        Some(id) => unsigned(id),
        None => None,
    }
}

/// The reply that a message is: it has a number, and a result or else an error. A
/// message without a number, or with neither, is no reply.
pub open spec fn reply_in(message: Value) -> Option<(u64, Result<Value, Seq<char>>)> {
    match message_id(message) {
        Some(id) => match member(message, "result"@) {
            Some(result) => Some((id, Ok(result))),
            None => match member(message, "error"@) {
                Some(error) => Some((id, Err(error_message(error)))),
                None => None,
            },
        },
        None => None,
    }
}

/// The reply that a line of the bridge is. Blank lines, and lines that are no
/// JSON, are none.
pub open spec fn reply_on(line: Seq<char>) -> Option<(u64, Result<Value, Seq<char>>)> {
    if trimmed(line).len() == 0 {
        None
    } else {
        match parsed(trimmed(line)) {
            Some(message) => reply_in(message),
            None => None,
        }
    }
}

/// The message of the request with that number. Where JSON text carries the parameters
/// unchanged, it carries the message unchanged.
pub fn request_message(id: u64, method: &str, params: Value) -> (r: Value)
    ensures
        is_request(r, id, method@, params),
        exact(params, params_depth()) ==> exact(r, READ_DEPTH as nat),
{
    proof {
        reveal_strlit("id");
        reveal_strlit("method");
        reveal_strlit("params");
        assert("method"@[0] != "params"@[0]);
    }
    let mut fields = new_map();
    insert(&mut fields, "id".to_owned(), number(id));
    insert(&mut fields, "method".to_owned(), string(method.to_owned()));
    insert(&mut fields, "params".to_owned(), params);
    let message = object(fields);
    proof {
        let all = members(message)->0;
        assert(all.dom() =~= set!["id"@, "method"@, "params"@]);
        assert(exact(all["id"@], params_depth()));
        assert(exact(all["method"@], params_depth()));
    }
    message
}

/// The line by which a message is written to the bridge. Where JSON text carries the
/// message unchanged, what stands before the line feed reads back as it.
pub fn encode_line(message: &Value) -> (r: String)
    ensures
        is_line_of(r@, *message),
        exact(*message, READ_DEPTH as nat) ==> parsed(r@.drop_last()) == Some(*message),
{
    let mut line = match print(message) {
        Ok(text) => text,
        Err(_) => vstd::pervasive::unreached(),
    };
    line.push('\n');
    assert(line@.drop_last() =~= printed(*message));
    line
}

/// The reply that a message of the bridge is.
pub fn decode_reply(message: &Value) -> (r: Option<Reply>)
    ensures
        match r {
            Some(reply) => reply_in(*message) == Some(reply_model(reply)),
            None => reply_in(*message) is None,
        },
{
    let id = match get(message, "id") {
        Some(id) => match as_u64(id) {
            Some(id) => id,
            None => return None,
        },
        None => return None,
    };
    if let Some(result) = get(message, "result") {
        return Some(Reply { id, outcome: Ok(copy(result)) });
    }
    if let Some(error) = get(message, "error") {
        let text = match get(error, "message") {
            Some(message) => match as_str(message) {
                Some(text) => text.to_owned(),
                None => "unknown error".to_owned(),
            },
            None => "unknown error".to_owned(),
        };
        return Some(Reply { id, outcome: Err(text) });
    }
    None
}

/// The reply that a line of the bridge's output is.
pub fn read_reply(line: &str) -> (r: Option<Reply>)
    ensures
        match r {
            Some(reply) => reply_on(line@) == Some(reply_model(reply)),
            None => reply_on(line@) is None,
        },
{
    let text = trim(line);
    if text.is_empty() {
        return None;
    }
    match parse(text) {
        Ok(message) => decode_reply(&message),
        Err(_) => None,
    }
}

/// What a caller is told when its wait ends.
pub fn conclude(waited: Waited) -> (r: Result<Value, String>)
    ensures
        match waited {
            Waited::TimedOut => outcome_model(r) == Err::<Value, Seq<char>>(
                "Bridge request timed out"@,
            ),
            Waited::ChannelClosed => outcome_model(r) == Err::<Value, Seq<char>>(
                "Bridge channel closed"@,
            ),
            Waited::Replied(outcome) => r == outcome,
        },
{
    match waited {
        Waited::TimedOut => Err("Bridge request timed out".to_owned()),
        Waited::ChannelClosed => Err("Bridge channel closed".to_owned()),
        Waited::Replied(outcome) => outcome,
    }
}

/// A connection to the bridge.
#[derive(Debug)]
pub struct Bridge<S> {
    request_id: u64,
    pending: HashMap<u64, S>,
}

impl<S> View for Bridge<S> {
    type V = BridgeModel<S>;

    closed spec fn view(&self) -> BridgeModel<S> {
        BridgeModel { next_id: self.request_id, waiting: self.pending@ }
    }
}

impl<S> Bridge<S> {
    /// A connection over which nothing was sent yet.
    pub fn new() -> (r: Self)
        ensures
            r@ == (BridgeModel { next_id: 0, waiting: Map::<u64, S>::empty() }),
    {
        broadcast use vstd::std_specs::hash::group_hash_axioms;

        Bridge { request_id: 0, pending: HashMap::new() }
    }

    /// Numbers a request, frames it and registers who waits for its reply. From then on
    /// a reply finds the one who waits, however soon after the line is written it comes.
    pub fn send(&mut self, method: &str, params: Value, waiter: S) -> (r: Request)
        ensures
            sends(
                old(self)@,
                final(self)@,
                (SentModel { id: r.id, line: r.line@, method: method@, params, waiter }),
            ),
    {
        broadcast use vstd::std_specs::hash::group_hash_axioms;

        let id = self.request_id;
        self.request_id = id.wrapping_add(1);
        self.pending.insert(id, waiter);
        let message = request_message(id, method, params);
        let line = encode_line(&message);
        let r = Request { id, line };
        proof {
            assert(is_request(message, r.id, method@, params));
            assert(is_request_line(r.line@, r.id, method@, params));
        }
        r
    }

    /// Gives back the one who waits for the reply to a request that could not be
    /// written. No other is touched.
    pub fn withdraw(&mut self, id: u64) -> (r: Option<S>)
        ensures
            match r {
                Some(waiter) => old(self)@.waiting.contains_pair(id, waiter),
                None => !old(self)@.waiting.contains_key(id),
            },
            final(self)@ == settled(old(self)@, id),
    {
        broadcast use vstd::std_specs::hash::group_hash_axioms;

        let r = self.pending.remove(&id);
        assert(self@.waiting =~= settled(old(self)@, id).waiting);
        r
    }

    /// Finds the one who waits for a reply. The wait is over with that, and no
    /// other is touched; a reply that nobody waits for is dropped.
    pub fn deliver(&mut self, reply: Reply) -> (r: Option<(S, Result<Value, String>)>)
        ensures
            match r {
                Some((waiter, outcome)) => old(self)@.waiting.contains_pair(reply.id, waiter)
                    && outcome == reply.outcome,
                None => !old(self)@.waiting.contains_key(reply.id),
            },
            final(self)@ == settled(old(self)@, reply.id),
    {
        match self.withdraw(reply.id) {
            Some(waiter) => Some((waiter, reply.outcome)),
            None => None,
        }
    }

    /// The output of the bridge has ended: hands out all who wait, with the error
    /// that each is told.
    pub fn hang_up(&mut self) -> (r: (HashMap<u64, S>, String))
        ensures
            r.0@ == old(self)@.waiting,
            r.1@ == "Bridge stdout closed, process died"@,
            final(self)@ == abandoned(old(self)@),
    {
        broadcast use vstd::std_specs::hash::group_hash_axioms;

        let mut drained: HashMap<u64, S> = HashMap::new();
        std::mem::swap(&mut drained, &mut self.pending);
        (drained, "Bridge stdout closed, process died".to_owned())
    }
}

/// What came from the output of the bridge.
#[derive(Debug)]
pub enum Output {
    /// The output has ended: the process died, or closed it.
    Ended,
    Line(String),
    /// The output could not be read.
    Failed,
}

/// What to do about it.
#[derive(Debug)]
pub enum OutputAction<S> {
    /// Tell everyone who waited the error, and read no more.
    FailAll { waiters: HashMap<u64, S>, error: String },
    /// Tell the one who waited, and read on.
    Answer { waiter: S, outcome: Result<Value, String> },
    /// Read on.
    Ignore,
    /// Read no more.
    Stop,
}

/// One step of reading the output of the bridge. A line that is a reply ends the wait
/// of the one who waits for it; any other line, and a reply that nobody waits for, is
/// ignored. When the output ends, nobody is left waiting.
pub fn read_bridge_stdout<S>(bridge: &mut Bridge<S>, output: Output) -> (r: OutputAction<S>)
    ensures
        match output {
            Output::Ended => {
                &&& r matches OutputAction::FailAll { waiters, error }
                &&& waiters@ == old(bridge)@.waiting
                &&& error@ == "Bridge stdout closed, process died"@
                &&& final(bridge)@ == abandoned(old(bridge)@)
            },
            Output::Line(line) => match reply_on(line@) {
                Some((id, outcome)) => {
                    &&& final(bridge)@ == settled(old(bridge)@, id)
                    &&& if old(bridge)@.waiting.contains_key(id) {
                        r matches OutputAction::Answer { waiter, outcome: told } && waiter == old(
                            bridge,
                        )@.waiting[id] && outcome_model(told) == outcome
                    } else {
                        r is Ignore
                    }
                },
                None => r is Ignore && final(bridge)@ == old(bridge)@,
            },
            Output::Failed => r is Stop && final(bridge)@ == old(bridge)@,
        },
{
    match output {
        Output::Ended => {
            let (waiters, error) = bridge.hang_up();
            OutputAction::FailAll { waiters, error }
        },
        Output::Line(line) => match read_reply(line.as_str()) {
            Some(reply) => match bridge.deliver(reply) {
                Some((waiter, outcome)) => OutputAction::Answer { waiter, outcome },
                None => OutputAction::Ignore,
            },
            None => OutputAction::Ignore,
        },
        Output::Failed => OutputAction::Stop,
    }
}

/// What a line of the bridge's error output is logged as.
pub open spec fn log_text(line: Seq<char>) -> Option<Seq<char>> {
    if trimmed(line).len() == 0 {
        None
    } else {
        Some(trimmed(line))
    }
}

/// What a line of the bridge's error output is logged as: its text without the
/// whitespace around it, and nothing for a blank line.
pub fn trim_log_line(line: &str) -> (r: Option<String>)
    ensures
        r.deep_view() == log_text(line@),
{
    let text = trim(line);
    if text.is_empty() {
        None
    } else {
        Some(text.to_owned())
    }
}

/// What the bytes of a line of the bridge's error output are logged as. Bytes that are
/// no UTF-8, which a console of another code page may produce, do no harm.
pub fn log_line(bytes: &[u8]) -> (r: Option<String>)
    ensures
        r.deep_view() == log_text(lossy_text(bytes@)),
        valid_utf8(bytes@) ==> r.deep_view() == log_text(decode_utf8(bytes@)),
{
    let text: String = match String::from_utf8_lossy(bytes) {
        Cow::Borrowed(text) => text.to_owned(),
        Cow::Owned(text) => text,
    };
    trim_log_line(text.as_str())
}

/// The lower-case text mentions one of the tools of the bridge.
pub open spec fn names_tool(lower: Seq<char>) -> bool {
    has_infix(lower, "node"@) || has_infix(lower, "npm"@) || has_infix(lower, "cargo"@)
        || has_infix(lower, "uv"@)
}

/// The entry of a search path is one where the tools of the bridge may be found.
pub open spec fn is_tool_path(entry: Seq<char>) -> bool {
    names_tool(lowercase(entry))
}

/// Whether the lower-case text mentions one of the tools of the bridge.
pub fn mentions_tool(lower: &str) -> (r: bool)
    ensures
        r == names_tool(lower@),
{
    contains(lower, "node") || contains(lower, "npm") || contains(lower, "cargo") || contains(
        lower,
        "uv",
    )
}

/// The entries of a search path where the tools of the bridge may be found, in
/// their order. A missing `node` or `npx` is the first suspect when no server
/// comes up.
pub fn tool_paths(path: &str) -> (r: Vec<String>)
    ensures
        r.deep_view() == split_on(path@, ';').filter(|entry: Seq<char>| is_tool_path(entry)),
{
    let entries = split(path, ';');
    let ghost all = entries.deep_view();
    let ghost wanted = |entry: Seq<char>| is_tool_path(entry);
    let mut r: Vec<String> = Vec::new();
    let mut i: usize = 0;
    proof {
        reveal(Seq::filter);
        assert(all.take(0).filter(wanted) =~= Seq::empty());
        assert(r.deep_view() =~= Seq::empty());
    }
    while i < entries.len()
        invariant
            i <= entries@.len(),
            all == entries.deep_view(),
            wanted == (|entry: Seq<char>| is_tool_path(entry)),
            r.deep_view() == all.take(i as int).filter(wanted),
        decreases entries@.len() - i,
    {
        let entry = &entries[i];
        let lower = entry.as_str().to_lowercase();
        let ghost before = r.deep_view();
        proof {
            reveal(Seq::filter);
            assert(all.take(i + 1).drop_last() =~= all.take(i as int));
            assert(all.take(i + 1).last() == entry@);
        }
        if mentions_tool(lower.as_str()) {
            r.push(entry.clone());
            assert(r.deep_view() =~= before.push(entry@));
        }
        i = i + 1;
    }
    assert(all.take(all.len() as int) =~= all);
    r
}

/// The requests of a new connection are numbered from zero: the request that `k` others
/// went before has the number `k`. The numbers of any two differ, up to the point where
/// every number has been used. Each is one line, the request in JSON with its only line
/// feed at the end. Whatever happens between two requests counts for nothing as long as
/// it leaves the next number alone, as replies, withdrawals and the end of the output do.
pub proof fn requests_are_numbered_in_order<S>(
    before: Seq<BridgeModel<S>>,
    after: Seq<BridgeModel<S>>,
    sent: Seq<SentModel<S>>,
    k: int,
)
    requires
        before.len() == sent.len(),
        after.len() == sent.len(),
        forall|i: int| 0 <= i < sent.len() ==> #[trigger] sends(before[i], after[i], sent[i]),
        forall|i: int|
            0 < i < sent.len() ==> (#[trigger] before[i]).next_id == after[i - 1].next_id,
        sent.len() > 0 ==> before[0].next_id == 0,
        0 <= k < sent.len(),
        k <= u64::MAX,
    ensures
        sent[k].id == k,
        is_request_line(sent[k].line, k as u64, sent[k].method, sent[k].params),
        forall|j: int| 0 <= j < k ==> (#[trigger] sent[j]).id != sent[k].id,
        sent[k].line.len() > 0,
        forall|p: int|
            0 <= p < sent[k].line.len() ==> (#[trigger] sent[k].line[p] == '\n' <==> p
                == sent[k].line.len() - 1),
    decreases k,
{
    assert(sends(before[k], after[k], sent[k]));
    if k > 0 {
        requests_are_numbered_in_order(before, after, sent, k - 1);
        assert(sends(before[k - 1], after[k - 1], sent[k - 1]));
        assert(before[k].next_id == after[k - 1].next_id);
    }
    assert forall|j: int| 0 <= j < k implies (#[trigger] sent[j]).id != sent[k].id by {
        requests_are_numbered_in_order(before, after, sent, j);
    }
    let sending = sent[k];
    let message = choose|message: Value| #[trigger]
        is_request(message, sending.id, sending.method, sending.params) && is_line_of(
            sending.line,
            message,
        ) && (exact(sending.params, params_depth()) ==> parsed(sending.line.drop_last()) == Some(
            message,
        ));
    let text = printed(message);
    assert forall|p: int| 0 <= p < sending.line.len() implies (#[trigger] sending.line[p] == '\n'
        <==> p == sending.line.len() - 1) by {
        if p < text.len() {
            assert(sending.line[p] == text[p]);
            assert(text.contains(text[p]));
        }
    }
}

/// A message has one reply in it at most, and the result comes before the error:
/// with a result the outcome is that result, whatever else the message holds.
pub proof fn a_result_outweighs_an_error(message: Value, result: Value)
    requires
        message_id(message) is Some,
        member(message, "result"@) == Some(result),
    ensures
        reply_in(message) == Some(
            (message_id(message)->0, Ok::<Value, Seq<char>>(result)),
        ),
{
}

/// A request that was sent is waited for by the one who sent it. A reply with another
/// number leaves that one waiting, and the reply with its number ends the wait.
pub proof fn replies_reach_their_own_caller<S>(
    before: BridgeModel<S>,
    after: BridgeModel<S>,
    sent: SentModel<S>,
    other: u64,
)
    requires
        sends(before, after, sent),
    ensures
        after.waiting.contains_pair(sent.id, sent.waiter),
        other != sent.id ==> settled(after, other).waiting.contains_pair(sent.id, sent.waiter),
        other != sent.id ==> (after.waiting.contains_key(other) <==> before.waiting.contains_key(
            other,
        )),
        !settled(after, sent.id).waiting.contains_key(sent.id),
{
}

/// A request that was withdrawn leaves the connection as if nobody had ever waited for
/// it; only its number is used up.
pub proof fn withdrawing_undoes_the_wait<S>(
    before: BridgeModel<S>,
    after: BridgeModel<S>,
    sent: SentModel<S>,
)
    requires
        sends(before, after, sent),
        !before.waiting.contains_key(sent.id),
    ensures
        settled(after, sent.id).waiting == before.waiting,
        settled(after, sent.id).next_id == number_after(before.next_id, 1),
{
    assert(settled(after, sent.id).waiting =~= before.waiting);
}

/// What a line of the bridge's output says, whatever whitespace stands around it. A JSON
/// object with an unsigned integer `k` under `id` and anything under `result` is the
/// reply with the number `k` and that result. Without a result, but with something under
/// `error`, it is the reply with the number `k` and the text under `message` in there,
/// or a remark where there is none. Everything else is no reply.
pub proof fn a_line_is_the_reply_that_it_says(
    lead: Seq<char>,
    text: Seq<char>,
    tail: Seq<char>,
    message: Value,
    k: u64,
    told: Seq<char>,
)
    requires
        forall|i: int| 0 <= i < lead.len() ==> is_space(#[trigger] lead[i]),
        forall|i: int| 0 <= i < tail.len() ==> is_space(#[trigger] tail[i]),
        text.len() > 0,
        !is_space(text[0]) && !is_space(text[text.len() - 1]),
    ensures
        ({
            let line = lead + text + tail;
            let fields = members(message)->0;
            let numbered = members(message) is Some && fields.contains_key("id"@) && unsigned(
                fields["id"@],
            ) == Some(k);
            let error = members(fields["error"@])->0;
            let explained = members(fields["error"@]) is Some && error.contains_key("message"@)
                && string_text(error["message"@]) is Some;
            &&& parsed(text) == Some(message) ==> reply_on(line) == reply_in(message)
            &&& parsed(text) is None ==> reply_on(line) is None
            &&& numbered && fields.contains_key("result"@) ==> reply_in(message) == Some(
                (k, Ok::<Value, Seq<char>>(fields["result"@])),
            )
            &&& numbered && !fields.contains_key("result"@) && fields.contains_key("error"@)
                && explained && string_text(error["message"@]) == Some(told) ==> reply_in(message)
                == Some((k, Err::<Value, Seq<char>>(told)))
            &&& numbered && !fields.contains_key("result"@) && fields.contains_key("error"@)
                && !explained ==> reply_in(message) == Some(
                (k, Err::<Value, Seq<char>>("unknown error"@)),
            )
            &&& numbered && !fields.contains_key("result"@) && !fields.contains_key("error"@)
                ==> reply_in(message) is None
            &&& !(members(message) is Some && fields.contains_key("id"@) && unsigned(
                fields["id"@],
            ) is Some) ==> reply_in(message) is None
        }),
{
    trimming_undoes_padding(lead, text, tail);
}

/// A blank line is no reply and is not logged; any other line is logged without the
/// whitespace around it.
pub proof fn blank_lines_are_passed_over(lead: Seq<char>, text: Seq<char>, tail: Seq<char>)
    requires
        forall|i: int| 0 <= i < lead.len() ==> is_space(#[trigger] lead[i]),
        forall|i: int| 0 <= i < tail.len() ==> is_space(#[trigger] tail[i]),
        text.len() > 0 ==> !is_space(text[0]) && !is_space(text[text.len() - 1]),
    ensures
        reply_on(lead) is None,
        log_text(lead) is None,
        text.len() > 0 ==> log_text(lead + text + tail) == Some(text),
{
    trimming_undoes_padding(lead, text, tail);
    let none: Seq<char> = Seq::empty();
    trimming_undoes_padding(lead, none, none);
    assert(lead + none + none =~= lead);
}

/// The round trip of a request: whoever answers the line that was sent with the number
/// that stands in it reaches the one who sent the request, with the result of the answer.
pub proof fn an_answer_reaches_the_one_who_asked<S>(
    before: BridgeModel<S>,
    after: BridgeModel<S>,
    sent: SentModel<S>,
    request: Value,
    k: u64,
    lead: Seq<char>,
    text: Seq<char>,
    tail: Seq<char>,
    answer: Value,
)
    requires
        sends(before, after, sent),
        exact(sent.params, (READ_DEPTH - 1) as nat),
        parsed(sent.line.drop_last()) == Some(request),
        members(request) is Some,
        unsigned((members(request)->0)["id"@]) == Some(k),
        forall|i: int| 0 <= i < lead.len() ==> is_space(#[trigger] lead[i]),
        forall|i: int| 0 <= i < tail.len() ==> is_space(#[trigger] tail[i]),
        text.len() > 0,
        !is_space(text[0]) && !is_space(text[text.len() - 1]),
        parsed(text) == Some(answer),
        members(answer) is Some,
        (members(answer)->0).contains_key("id"@),
        unsigned((members(answer)->0)["id"@]) == Some(k),
        (members(answer)->0).contains_key("result"@),
    ensures
        k == before.next_id,
        reply_on(lead + text + tail) == Some(
            (k, Ok::<Value, Seq<char>>((members(answer)->0)["result"@])),
        ),
        after.waiting.contains_pair(k, sent.waiter),
        !settled(after, k).waiting.contains_key(k),
{
    a_line_is_the_reply_that_it_says(lead, text, tail, answer, k, Seq::empty());
    let message = choose|message: Value| #[trigger]
        is_request(message, sent.id, sent.method, sent.params) && is_line_of(sent.line, message) && (
        exact(sent.params, params_depth()) ==> parsed(sent.line.drop_last()) == Some(message));
    assert(request == message);
}

/// What a request is: an object of exactly the number, the method and the parameters,
/// written as JSON on one line with a line feed behind it, and no other in it. Where text
/// carries the parameters unchanged, the line reads back as the request.
pub proof fn a_request_holds_what_was_asked(
    line: Seq<char>,
    id: u64,
    method: Seq<char>,
    params: Value,
)
    requires
        is_request_line(line, id, method, params),
    ensures
        line.len() > 0,
        line[line.len() - 1] == '\n',
        !line.drop_last().contains('\n'),
        exists|message: Value| #[trigger]
            printed(message) == line.drop_last() && (members(message) matches Some(m) && m.len()
                == 3 && m.contains_key("id"@) && unsigned(m["id"@]) == Some(id) && m.contains_key(
                "method"@,
            ) && string_text(m["method"@]) == Some(method) && m.contains_pair("params"@, params))
                && (exact(params, (READ_DEPTH - 1) as nat) ==> parsed(line.drop_last()) == Some(
                message,
            )),
{
    let message = choose|message: Value| #[trigger]
        is_request(message, id, method, params) && is_line_of(line, message) && (exact(
            params,
            params_depth(),
        ) ==> parsed(line.drop_last()) == Some(message));
    assert(line.drop_last() =~= printed(message));
    let m = members(message)->0;
    reveal_strlit("id");
    reveal_strlit("method");
    reveal_strlit("params");
    assert("method"@[0] != "params"@[0]);
    assert("id"@.len() == 2 && "method"@.len() == 6);
    let none = Set::<Seq<char>>::empty();
    assert(m.dom() =~= none.insert("id"@).insert("method"@).insert("params"@));
    assert(m.dom().contains("id"@) && m.dom().contains("method"@) && m.dom().contains("params"@));
    assert(m.dom().len() == 3);
    assert(printed(message) == line.drop_last());
}

/// What each step of a connection changes. Sending uses up one number, the greatest being
/// followed by zero, and lets one more wait under it; everyone else who waits goes on
/// waiting. Settling a request ends the wait under its number alone, and at the end of
/// the output every wait ends. Neither changes the next number.
pub proof fn what_the_steps_of_a_connection_change<S>(
    before: BridgeModel<S>,
    after: BridgeModel<S>,
    sent: SentModel<S>,
    id: u64,
    other: u64,
)
    ensures
        sends(before, after, sent) ==> sent.id == before.next_id,
        sends(before, after, sent) ==> after.next_id == (if before.next_id == u64::MAX {
            0
        } else {
            before.next_id + 1
        }),
        sends(before, after, sent) ==> after.waiting == before.waiting.insert(
            before.next_id,
            sent.waiter,
        ),
        settled(before, id).next_id == before.next_id,
        !settled(before, id).waiting.contains_key(id),
        other != id ==> (settled(before, id).waiting.contains_key(other)
            <==> before.waiting.contains_key(other)),
        other != id && before.waiting.contains_key(other) ==> settled(before, id).waiting[other]
            == before.waiting[other],
        abandoned(before).next_id == before.next_id,
        abandoned(before).waiting.dom() == Set::<u64>::empty(),
{
    assert(abandoned(before).waiting.dom() =~= Set::empty());
}

/// The model of an outcome is the outcome itself, with the text of an error.
pub proof fn outcomes_are_modelled_as_they_are(outcome: Result<Value, String>, reply: Reply)
    ensures
        outcome matches Ok(v) ==> outcome_model(outcome) == Ok::<Value, Seq<char>>(v),
        outcome matches Err(e) ==> outcome_model(outcome) == Err::<Value, Seq<char>>(e@),
        reply_model(reply).0 == reply.id,
        reply_model(reply).1 == outcome_model(reply.outcome),
{
}

/// An entry of the search path is picked out exactly where its lower-case form holds the
/// name of one of the tools.
pub proof fn tool_paths_name_a_tool(entry: Seq<char>, before: Seq<char>, after: Seq<char>)
    ensures
        is_tool_path(entry) <==> has_infix(lowercase(entry), "node"@) || has_infix(
            lowercase(entry),
            "npm"@,
        ) || has_infix(lowercase(entry), "cargo"@) || has_infix(lowercase(entry), "uv"@),
        names_tool(before + "node"@ + after),
        names_tool(before + "npm"@ + after),
        names_tool(before + "cargo"@ + after),
        names_tool(before + "uv"@ + after),
        names_tool(entry) ==> has_infix(entry, "node"@) || has_infix(entry, "npm"@) || has_infix(
            entry,
            "cargo"@,
        ) || has_infix(entry, "uv"@),
{
    needles_stand_between(entry, before, "node"@, after);
    needles_stand_between(entry, before, "npm"@, after);
    needles_stand_between(entry, before, "cargo"@, after);
    needles_stand_between(entry, before, "uv"@, after);
}

/// A caller waits for a minute.
pub proof fn callers_wait_for_a_minute()
    ensures
        REQUEST_TIMEOUT_SECS == 60,
{
}

} // verus!
