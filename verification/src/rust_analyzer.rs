//! The client of a rust-analyzer process: JSON-RPC messages, their framing, and the
//! way from a reply to the request that it answers.

use vstd::prelude::*;
use vstd::string::*;
use vstd::utf8::*;

use crate::json::{
    find_member, json_member, json_quoted, json_unsigned, quote_json, read_unsigned,
};
use crate::text::{
    decimal, digit, digits_size, digits_value, has_prefix, is_digit, is_white, number, parse_size,
    parsed_size, same_text, starts_with, strip_prefixes, trim, trimmed, trimmed_end, trimmed_start,
    without_prefixes,
};

verus! {

/// How many seconds a reply may take.
pub const REQUEST_TIMEOUT_SECONDS: usize = 30;

/// A request to the server, which is answered.
#[derive(Debug)]
pub struct JsonRpcRequest {
    pub jsonrpc: String,
    pub id: usize,
    pub method: String,
    /// A JSON text.
    pub params: String,
}

/// A message to the server that is not answered.
#[derive(Debug)]
pub struct JsonRpcNotification {
    pub jsonrpc: String,
    pub method: String,
    /// A JSON text.
    pub params: String,
}

/// The JSON text of a request.
pub open spec fn request_json(
    jsonrpc: Seq<char>,
    id: nat,
    method: Seq<char>,
    params: Seq<char>,
) -> Seq<char> {
    "{\"jsonrpc\":"@ + json_quoted(jsonrpc) + ",\"id\":"@ + decimal(id) + ",\"method\":"@
        + json_quoted(method) + ",\"params\":"@ + params + "}"@
}

/// The JSON text of a notification.
pub open spec fn notification_json(
    jsonrpc: Seq<char>,
    method: Seq<char>,
    params: Seq<char>,
) -> Seq<char> {
    "{\"jsonrpc\":"@ + json_quoted(jsonrpc) + ",\"method\":"@ + json_quoted(method)
        + ",\"params\":"@ + params + "}"@
}

impl JsonRpcRequest {
    /// The JSON text of the request.
    pub fn to_json(&self) -> (json: String)
        ensures
            json@ == request_json(self.jsonrpc@, self.id as nat, self.method@, self.params@),
    {
        String::from_str("{\"jsonrpc\":").concat(quote_json(self.jsonrpc.as_str()).as_str()).concat(
            ",\"id\":",
        ).concat(number(self.id).as_str()).concat(",\"method\":").concat(
            quote_json(self.method.as_str()).as_str(),
        ).concat(",\"params\":").concat(self.params.as_str()).concat("}")
    }
}

impl JsonRpcNotification {
    /// The JSON text of the notification.
    pub fn to_json(&self) -> (json: String)
        ensures
            json@ == notification_json(self.jsonrpc@, self.method@, self.params@),
    {
        String::from_str("{\"jsonrpc\":").concat(quote_json(self.jsonrpc.as_str()).as_str()).concat(
            ",\"method\":",
        ).concat(quote_json(self.method.as_str()).as_str()).concat(",\"params\":").concat(
            self.params.as_str(),
        ).concat("}")
    }
}

/// A payload with its header: its length in bytes, an empty line, then the payload.
pub open spec fn framed(payload: Seq<char>) -> Seq<char> {
    "Content-Length: "@ + decimal(encode_utf8(payload).len()) + "\r\n\r\n"@ + payload
}

/// Frames a JSON-RPC payload with the `Content-Length` header.
pub fn frame_message(payload: &str) -> (message: String)
    ensures
        message@ == framed(payload@),
{
    String::from_str("Content-Length: ").concat(number(payload.as_bytes().len()).as_str()).concat(
        "\r\n\r\n",
    ).concat(payload)
}

/// Whether a line ends a header.
pub open spec fn ends_header(line: Seq<char>) -> bool {
    line == "\r\n"@ || line == "\n"@
}

/// The length that a header line tells, where it tells one.
pub open spec fn told_length(line: Seq<char>) -> Option<usize> {
    if has_prefix(line, "Content-Length: "@) {
        parsed_size(trimmed(without_prefixes(line, "Content-Length: "@)))
    } else {
        None
    }
}

/// What is to be read next from the server.
#[derive(Debug)]
pub enum ReadStep {
    /// A line; then [`HeaderReader::line`].
    Line(HeaderReader),
    /// A message of this many bytes, after which a header follows.
    Body(usize),
}

/// The reading of a header, of which `length` was told so far.
#[derive(Debug)]
pub struct HeaderReader {
    length: usize,
}

#[verifier::ext_equal]
pub enum ReadStepView {
    Line(nat),
    Body(nat),
}

impl HeaderReader {
    pub closed spec fn told(&self) -> nat {
        self.length as nat
    }
}

impl View for ReadStep {
    type V = ReadStepView;

    open spec fn view(&self) -> ReadStepView {
        match *self {
            ReadStep::Line(reader) => ReadStepView::Line(reader.told()),
            ReadStep::Body(length) => ReadStepView::Body(length as nat),
        }
    }
}

/// What is read after a line. A header that tells no length is followed by another;
/// of several lengths the last counts.
pub open spec fn after_line(told: nat, line: Seq<char>) -> ReadStepView {
    if ends_header(line) {
        if told > 0 {
            ReadStepView::Body(told)
        } else {
            ReadStepView::Line(0)
        }
    } else {
        match told_length(line) {
            Some(length) => ReadStepView::Line(length as nat),
            None => ReadStepView::Line(told),
        }
    }
}

impl HeaderReader {
    /// A header from its start.
    pub fn new() -> (reader: HeaderReader)
        ensures
            reader.told() == 0,
    {
        HeaderReader { length: 0 }
    }

    /// A line that was read, with its end.
    pub fn line(self, line: &str) -> (step: ReadStep)
        ensures
            step@ == after_line(self.told(), line@),
    {
        if same_text(line, "\r\n") || same_text(line, "\n") {
            if self.length > 0 {
                return ReadStep::Body(self.length);
            }
            return ReadStep::Line(HeaderReader { length: 0 });
        }
        if starts_with(line, "Content-Length: ") {
            let rest = strip_prefixes(line, "Content-Length: ");
            if let Some(length) = parse_size(trim(rest.as_str()).as_str()) {
                return ReadStep::Line(HeaderReader { length });
            }
        }
        ReadStep::Line(self)
    }
}

/// [`String::from_utf8`]: the text of bytes that are UTF-8, and none for others.
#[verifier::external_body]
fn text_of_bytes(bytes: Vec<u8>) -> (text: Option<String>)
    ensures
        text is Some == valid_utf8(bytes@),
        text matches Some(t) ==> t@ == decode_utf8(bytes@),
{
    String::from_utf8(bytes).ok()
}

/// `dashmap::DashMap`: a table by key.
#[verifier::external_type_specification]
#[verifier::external_body]
#[verifier::reject_recursive_types(K)]
#[verifier::reject_recursive_types(V)]
#[verifier::reject_recursive_types(S)]
pub struct ExDashMap<K, V, S>(dashmap::DashMap<K, V, S>);

/// What a table holds.
pub uninterp spec fn waiting(table: dashmap::DashMap<usize, usize>) -> Map<usize, usize>;

/// A table that holds nothing.
pub open spec fn nothing_waits() -> Map<usize, usize> {
    Map::empty()
}

/// `dashmap::DashMap::new`: a table that holds nothing.
#[verifier::external_body]
fn new_table() -> (table: dashmap::DashMap<usize, usize>)
    ensures
        waiting(table) == nothing_waits(),
{
    dashmap::DashMap::new()
}

/// `dashmap::DashMap::insert`: puts a value under a key, in place of the one that may
/// have been there, which is handed out.
#[verifier::external_body]
fn table_insert(table: &mut dashmap::DashMap<usize, usize>, key: usize, value: usize) -> (before:
    Option<usize>)
    ensures
        waiting(*final(table)) == waiting(*old(table)).insert(key, value),
        before == (if waiting(*old(table)).dom().contains(key) {
            Some(waiting(*old(table))[key])
        } else {
            None
        }),
{
    table.insert(key, value)
}

/// `dashmap::DashMap::remove`: takes the value under a key out of the table, where
/// there is one, and hands out both.
#[verifier::external_body]
fn table_remove(table: &mut dashmap::DashMap<usize, usize>, key: usize) -> (taken: Option<
    (usize, usize),
>)
    ensures
        waiting(*final(table)) == waiting(*old(table)).remove(key),
        taken == (if waiting(*old(table)).dom().contains(key) {
            Some((key, waiting(*old(table))[key]))
        } else {
            None
        }),
{
    table.remove(&key)
}

/// Requests that were sent and not answered yet. Who waits for the reply is told by a
/// number of the caller's choice.
pub struct PendingRequests {
    table: dashmap::DashMap<usize, usize>,
}

impl View for PendingRequests {
    type V = Map<usize, usize>;

    closed spec fn view(&self) -> Map<usize, usize> {
        waiting(self.table)
    }
}

/// The id that a message from the server carries, where it is a number.
pub open spec fn reply_id(message: Seq<char>) -> Option<usize> {
    match json_member(message, "id"@) {
        Some(Some(member)) => match json_unsigned(member) {
            Some(id) => Some(id as usize),
            None => None,
        },
        _ => None,
    }
}

/// Who waits for a message from the server, where someone does.
pub open spec fn waits_for(pending: Map<usize, usize>, message: Seq<char>) -> Option<usize> {
    match reply_id(message) {
        Some(id) => if pending.dom().contains(id) {
            Some(pending[id])
        } else {
            None
        },
        None => None,
    }
}

/// The requests that are left after a message from the server.
pub open spec fn left_after(pending: Map<usize, usize>, message: Seq<char>) -> Map<usize, usize> {
    match reply_id(message) {
        Some(id) => pending.remove(id),
        None => pending,
    }
}

/// The id that a message from the server carries, where it is a number.
fn find_reply_id(message: &str) -> (id: Option<usize>)
    ensures
        id == reply_id(message@),
{
    match find_member(message, "id") {
        Some(Some(member)) => match read_unsigned(member.as_str()) {
            Some(id) => Some(#[verifier::truncate] (id as usize)),
            None => None,
        },
        _ => None,
    }
}

impl PendingRequests {
    /// No requests.
    pub fn new() -> (pending: PendingRequests)
        ensures
            pending@ == nothing_waits(),
    {
        PendingRequests { table: new_table() }
    }

    /// The message that sends a request, for whose reply `waiter` waits from now on.
    pub fn send(&mut self, request: &JsonRpcRequest, waiter: usize) -> (message: String)
        ensures
            final(self)@ == old(self)@.insert(request.id, waiter),
            message@ == framed(
                request_json(
                    request.jsonrpc@,
                    request.id as nat,
                    request.method@,
                    request.params@,
                ),
            ),
    {
        let _ = table_insert(&mut self.table, request.id, waiter);
        frame_message(request.to_json().as_str())
    }

    /// A request could not be sent: nobody waits for its reply.
    pub fn cancel(&mut self, id: usize)
        ensures
            final(self)@ == old(self)@.remove(id),
    {
        let _ = table_remove(&mut self.table, id);
    }

    /// A message from the server: who waits for it, where someone does. One without an
    /// id is a notification, which nobody waits for.
    pub fn receive(&mut self, message: &str) -> (waiter: Option<usize>)
        ensures
            waiter == waits_for(old(self)@, message@),
            final(self)@ == left_after(old(self)@, message@),
    {
        match find_reply_id(message) {
            Some(id) => match table_remove(&mut self.table, id) {
                Some(taken) => Some(taken.1),
                None => None,
            },
            None => None,
        }
    }

    /// The bytes of a message from the server: who waits for it, where someone does,
    /// and its text. Bytes that are not UTF-8 are dropped.
    pub fn receive_bytes(&mut self, bytes: Vec<u8>) -> (found: Option<(usize, String)>)
        ensures
            !valid_utf8(bytes@) ==> found is None && final(self)@ == old(self)@,
            valid_utf8(bytes@) ==> {
                let message = decode_utf8(bytes@);
                &&& final(self)@ == left_after(old(self)@, message)
                &&& found is Some == waits_for(old(self)@, message) is Some
                &&& found matches Some(f) ==> waits_for(old(self)@, message) == Some(f.0)
                    && f.1@ == message
            },
    {
        match text_of_bytes(bytes) {
            Some(message) => match self.receive(message.as_str()) {
                Some(waiter) => Some((waiter, message)),
                None => None,
            },
            None => None,
        }
    }
}

/// The client of a rust-analyzer process.
pub struct RustAnalyzer {
    next_id: usize,
}

/// What a client asks first.
pub open spec fn initialize_params(process_id: nat, workspace_root: Seq<char>) -> Seq<char> {
    "{\"capabilities\":{\"textDocument\":{\"documentSymbol\":{\"hierarchicalDocumentSymbolSupport\":true}},\"workspace\":{\"symbol\":{\"dynamicRegistration\":true},\"workspaceFolders\":true}},\"processId\":"@
        + decimal(process_id) + ",\"rootUri\":"@ + json_quoted("file://"@ + workspace_root) + "}"@
}

/// What a client asks for symbols of the workspace.
pub open spec fn symbol_params(query: Seq<char>) -> Seq<char> {
    "{\"query\":"@ + json_quoted(query) + "}"@
}

/// The version of the protocol.
pub const JSONRPC_VERSION: &'static str = "2.0";

/// What a reply comes to: the JSON text of its result, or a message with the error
/// that the server reports. A reply with neither has the result `null`.
pub open spec fn reply_result(message: Seq<char>) -> Result<Seq<char>, Seq<char>> {
    match json_member(message, "error"@) {
        Some(Some(error)) => Err("rust-analyzer error: "@ + error),
        _ => match json_member(message, "result"@) {
            Some(Some(result)) => Ok(result),
            _ => Ok("null"@),
        },
    }
}

/// The contents of a text or of a message.
pub open spec fn text_result(result: Result<String, String>) -> Result<Seq<char>, Seq<char>> {
    match result {
        Ok(text) => Ok(text@),
        Err(message) => Err(message@),
    }
}

impl RustAnalyzer {
    /// The id of the next request.
    pub closed spec fn next(&self) -> usize {
        self.next_id
    }

    /// A client that has sent nothing yet.
    pub fn new() -> (client: RustAnalyzer)
        ensures
            client.next() == 1,
    {
        RustAnalyzer { next_id: 1 }
    }

    /// The request that a client of the workspace starts with; then
    /// [`AwaitInitialize::reply`].
    pub fn start(&mut self, process_id: usize, workspace_root: &str) -> (started: (
        JsonRpcRequest,
        AwaitInitialize,
    ))
        ensures
            started.0.jsonrpc@ == JSONRPC_VERSION@,
            started.0.id == old(self).next(),
            started.0.method@ == "initialize"@,
            started.0.params@ == initialize_params(process_id as nat, workspace_root@),
            started.1.request() == started.0.id,
            final(self).next() == (if old(self).next() == usize::MAX {
                0
            } else {
                (old(self).next() + 1) as usize
            }),
    {
        let root = String::from_str("file://").concat(workspace_root);
        let params = String::from_str(
            "{\"capabilities\":{\"textDocument\":{\"documentSymbol\":{\"hierarchicalDocumentSymbolSupport\":true}},\"workspace\":{\"symbol\":{\"dynamicRegistration\":true},\"workspaceFolders\":true}},\"processId\":",
        ).concat(number(process_id).as_str()).concat(",\"rootUri\":").concat(
            quote_json(root.as_str()).as_str(),
        ).concat("}");
        let request = self.send_request("initialize", params);
        let id: usize = request.id;
        (request, AwaitInitialize { id })
    }

    /// A notification to the server.
    pub fn send_notification(&self, method: &str, params: String) -> (notification:
        JsonRpcNotification)
        ensures
            notification.jsonrpc@ == JSONRPC_VERSION@,
            notification.method@ == method@,
            notification.params@ == params@,
    {
        new_notification(method, params)
    }

    /// A request to the server, under the next id. After the largest id the numbers
    /// start again at zero.
    pub fn send_request(&mut self, method: &str, params: String) -> (request: JsonRpcRequest)
        ensures
            request.jsonrpc@ == JSONRPC_VERSION@,
            request.id == old(self).next(),
            request.method@ == method@,
            request.params@ == params@,
            final(self).next() == (if old(self).next() == usize::MAX {
                0
            } else {
                (old(self).next() + 1) as usize
            }),
    {
        let id: usize = self.next_id;
        self.next_id = if id == usize::MAX {
            0
        } else {
            id + 1
        };
        JsonRpcRequest {
            jsonrpc: JSONRPC_VERSION.to_string(),
            id,
            method: method.to_string(),
            params,
        }
    }

    /// A request for symbols of the workspace.
    pub fn workspace_symbol(&mut self, query: &str) -> (request: JsonRpcRequest)
        ensures
            request.jsonrpc@ == JSONRPC_VERSION@,
            request.id == old(self).next(),
            request.method@ == "workspace/symbol"@,
            request.params@ == symbol_params(query@),
            final(self).next() == (if old(self).next() == usize::MAX {
                0
            } else {
                (old(self).next() + 1) as usize
            }),
    {
        let params = String::from_str("{\"query\":").concat(quote_json(query).as_str()).concat(
            "}",
        );
        self.send_request("workspace/symbol", params)
    }
}

/// What a reply comes to: the result without the envelope, or the error that the
/// server reports.
pub fn open_reply(message: &str) -> (result: Result<String, String>)
    ensures
        text_result(result) == reply_result(message@),
{
    if let Some(Some(error)) = find_member(message, "error") {
        return Err(String::from_str("rust-analyzer error: ").concat(error.as_str()));
    }
    match find_member(message, "result") {
        Some(Some(result)) => Ok(result),
        _ => Ok(String::from_str("null")),
    }
}

/// The message for a request that was not answered in time.
pub open spec fn timed_out(method: Seq<char>) -> Seq<char> {
    "rust-analyzer request '"@ + method + "' timed out after "@ + decimal(
        REQUEST_TIMEOUT_SECONDS as nat,
    ) + "s"@
}

/// The message for a request that was not answered in time.
pub fn timeout_message(method: &str) -> (message: String)
    ensures
        message@ == timed_out(method@),
{
    String::from_str("rust-analyzer request '").concat(method).concat(
        "' timed out after ",
    ).concat(number(REQUEST_TIMEOUT_SECONDS).as_str()).concat("s")
}

/// What a request comes to: what its reply does, or a message where there was none in
/// time.
pub open spec fn request_result(method: Seq<char>, reply: Option<Seq<char>>) -> Result<
    Seq<char>,
    Seq<char>,
> {
    match reply {
        Some(message) => reply_result(message),
        None => Err(timed_out(method)),
    }
}

/// The contents of a reply that may be absent.
pub open spec fn reply_view(reply: Option<&str>) -> Option<Seq<char>> {
    match reply {
        Some(message) => Some(message@),
        None => None,
    }
}

/// What a request comes to, where this is the reply; none where there was none in time.
pub fn close_request(method: &str, reply: Option<&str>) -> (result: Result<String, String>)
    ensures
        text_result(result) == request_result(method@, reply_view(reply)),
{
    match reply {
        Some(message) => open_reply(message),
        None => Err(timeout_message(method)),
    }
}

/// A notification of this version of the protocol.
fn new_notification(method: &str, params: String) -> (notification: JsonRpcNotification)
    ensures
        notification.jsonrpc@ == JSONRPC_VERSION@,
        notification.method@ == method@,
        notification.params@ == params@,
{
    JsonRpcNotification {
        jsonrpc: JSONRPC_VERSION.to_string(),
        method: method.to_string(),
        params,
    }
}

/// A client that waits for the reply to its first request.
pub struct AwaitInitialize {
    id: usize,
}

/// What a client does once its first request came to something.
pub enum StartStep {
    /// Send this notification: the client can be used from then on.
    Notify(JsonRpcNotification),
    /// Give up, with this message.
    Failed(String),
}

#[verifier::ext_equal]
pub enum StartStepView {
    /// The method and the parameters of the notification.
    Notify(Seq<char>, Seq<char>),
    Failed(Seq<char>),
}

impl View for StartStep {
    type V = StartStepView;

    open spec fn view(&self) -> StartStepView {
        match *self {
            StartStep::Notify(notification) => StartStepView::Notify(
                notification.method@,
                notification.params@,
            ),
            StartStep::Failed(message) => StartStepView::Failed(message@),
        }
    }
}

impl AwaitInitialize {
    /// The id of the request.
    pub closed spec fn request(&self) -> usize {
        self.id
    }

    /// The reply to the first request; none where there was none in time. Only a client
    /// whose request was answered with a result goes on.
    pub fn reply(self, reply: Option<&str>) -> (step: StartStep)
        ensures
            step@ == (match reply {
                Some(m) => match reply_result(m@) {
                    Ok(_) => StartStepView::Notify("initialized"@, "{}"@),
                    Err(e) => StartStepView::Failed(e),
                },
                None => StartStepView::Failed(timed_out("initialize"@)),
            }),
            step matches StartStep::Notify(n) ==> n.jsonrpc@ == JSONRPC_VERSION@,
    {
        match close_request("initialize", reply) {
            Ok(_) => StartStep::Notify(
                new_notification("initialized", String::from_str("{}")),
            ),
            Err(message) => StartStep::Failed(message),
        }
    }
}

/// Where the requests stand that are not answered: a reply finds the one that waits
/// for it, once.
pub proof fn law_reply_once(pending: Map<usize, usize>, id: usize, waiter: usize, reply: Seq<char>)
    requires
        reply_id(reply) == Some(id),
    ensures
        waits_for(pending.insert(id, waiter), reply) == Some(waiter),
        waits_for(left_after(pending.insert(id, waiter), reply), reply) == None::<usize>,
        forall|other: usize|
            other != id ==> (#[trigger] left_after(pending.insert(id, waiter), reply).dom().contains(
                other,
            ) == pending.dom().contains(other)),
{
}

/// The id of the request that follows `k` others.
pub open spec fn id_after(first: usize, k: nat) -> usize
    decreases k,
{
    if k == 0 {
        first
    } else {
        let before = id_after(first, (k - 1) as nat);
        if before == usize::MAX {
            0
        } else {
            (before + 1) as usize
        }
    }
}

proof fn lemma_id_after(first: usize, k: nat)
    requires
        k <= usize::MAX,
    ensures
        id_after(first, k) == (if first + k <= usize::MAX {
            first + k
        } else {
            first + k - usize::MAX - 1
        }),
    decreases k,
{
    if k > 0 {
        lemma_id_after(first, (k - 1) as nat);
    }
}

/// No two requests have the same id, as long as there are no more than there are
/// numbers.
pub proof fn law_ids_differ(first: usize, j: nat, k: nat)
    requires
        j < k <= usize::MAX,
    ensures
        id_after(first, j) != id_after(first, k),
{
    lemma_id_after(first, j);
    lemma_id_after(first, k);
}

/// The characters of a number are digits, and stand for it.
proof fn lemma_decimal(n: nat)
    ensures
        decimal(n).len() > 0,
        forall|i: int| 0 <= i < decimal(n).len() ==> is_digit(#[trigger] decimal(n)[i]),
        digits_value(decimal(n)) == n,
    decreases n,
{
    if n < 10 {
        let s = decimal(n);
        assert(s =~= seq![digit(n)]);
        assert(s.drop_last() =~= seq![]);
        reveal_with_fuel(digits_value, 2);
    } else {
        lemma_decimal(n / 10);
        let s = decimal(n);
        assert(s.drop_last() =~= decimal(n / 10));
        assert(s.last() == digit(n % 10));
        assert forall|i: int| 0 <= i < s.len() implies is_digit(#[trigger] s[i]) by {
            if i < s.len() - 1 {
                assert(s[i] == decimal(n / 10)[i]);
            }
        }
    }
}

/// The header line that [`frame_message`] writes tells the length that it wrote.
proof fn lemma_header_line(n: nat)
    requires
        n <= usize::MAX,
    ensures
        told_length("Content-Length: "@ + decimal(n) + "\r\n"@) == Some(n as usize),
        !ends_header("Content-Length: "@ + decimal(n) + "\r\n"@),
{
    reveal_strlit("Content-Length: ");
    reveal_strlit("\r\n");
    reveal_strlit("\n");
    lemma_decimal(n);
    let prefix = "Content-Length: "@;
    let digits = decimal(n);
    let end = "\r\n"@;
    let line = prefix + digits + end;
    let rest = digits + end;
    assert(line.take(prefix.len() as int) =~= prefix);
    assert(line.skip(prefix.len() as int) =~= rest);
    assert(is_digit(digits[0]));
    assert(rest[0] == digits[0]);
    assert(!has_prefix(rest, prefix)) by {
        if has_prefix(rest, prefix) {
            assert(rest.take(prefix.len() as int)[0] == prefix[0]);
        }
    }
    reveal_with_fuel(without_prefixes, 2);
    assert(without_prefixes(line, prefix) == rest);
    assert(!is_white(rest[0]));
    assert(trimmed_start(rest) == rest);
    let a = rest.drop_last();
    assert(rest.last() == '\n');
    assert(a.last() == '\r');
    assert(a.drop_last() =~= digits);
    assert(is_digit(digits[digits.len() - 1]));
    assert(digits.last() == digits[digits.len() - 1]);
    assert(!is_white(digits.last()));
    reveal_with_fuel(trimmed_end, 3);
    assert(trimmed(rest) == digits);
    assert(digits[0] != '+');
    assert(parsed_size(digits) == digits_size(digits));
    assert(line[0] == 'C');
}

/// What [`frame_message`] writes is read back: a header line and an empty line, after
/// which as many bytes are read as the payload has, and these are the payload. An
/// empty payload is left out: after its header another header is read.
pub proof fn law_frame_read_back(payload: Seq<char>)
    requires
        0 < encode_utf8(payload).len() <= usize::MAX,
    ensures
        ({
            let line = "Content-Length: "@ + decimal(encode_utf8(payload).len()) + "\r\n"@;
            let empty = "\r\n"@;
            &&& framed(payload) == line + empty + payload
            &&& after_line(0, line) == ReadStepView::Line(encode_utf8(payload).len())
            &&& after_line(encode_utf8(payload).len(), empty) == ReadStepView::Body(
                encode_utf8(payload).len(),
            )
            &&& decode_utf8(encode_utf8(payload)) == payload
        }),
{
    let n = encode_utf8(payload).len();
    let line = "Content-Length: "@ + decimal(n) + "\r\n"@;
    let empty = "\r\n"@;
    lemma_header_line(n);
    reveal_strlit("\r\n");
    reveal_strlit("\r\n\r\n");
    assert("\r\n\r\n"@ =~= "\r\n"@ + "\r\n"@);
    assert(framed(payload) =~= line + empty + payload);
    encode_utf8_decode_utf8(payload);
}

} // verus!
