//! Requests, replies and headers on the way between a client and its server.

use vstd::prelude::*;

use crate::json::{json_member, json_quoted, json_unsigned};
use crate::rust_analyzer::{
    after_line, initialize_params, left_after, notification_json, reply_id, reply_result,
    request_json, request_result, symbol_params, waits_for, ReadStepView, JSONRPC_VERSION,
};
use crate::text::{decimal, has_prefix, parsed_size, trimmed, without_prefixes};

verus! {

/// A message without an id that is a number is waited for by nobody, and leaves those that
/// wait. One with such an id is waited for by whoever sent the request with this id, who then
/// waits no more; everyone else waits on, for the same reply as before.
pub proof fn law_replies_find_their_requests(pending: Map<usize, usize>, message: Seq<char>)
    ensures
        (json_member(message, "id"@) matches Some(Some(member)) ==> json_unsigned(member) is None)
            ==> waits_for(pending, message) is None && left_after(pending, message) == pending,
        json_member(message, "id"@) matches Some(Some(member)) ==> (
        json_unsigned(member) matches Some(id) ==> {
            &&& waits_for(pending, message) is Some <==> pending.dom().contains(id as usize)
            &&& pending.dom().contains(id as usize) ==> waits_for(pending, message) == Some(
                pending[id as usize],
            )
            &&& !left_after(pending, message).dom().contains(id as usize)
            &&& forall|other: usize|
                other != id as usize ==> (#[trigger] left_after(pending, message).dom().contains(
                    other,
                ) <==> pending.dom().contains(other)) && left_after(pending, message)[other]
                    == pending[other]
        }),
{
    match json_member(message, "id"@) {
        Some(Some(member)) => {
            assert(reply_id(message) is Some <==> json_unsigned(member) is Some);
        },
        _ => {
            assert(reply_id(message) is None);
        },
    }
}

/// What a request comes to: where the reply reports an error that error, whatever else it
/// holds; else the result it holds, or `null` where it holds none; where there was no reply in
/// time, that.
pub proof fn law_replies_are_opened(method: Seq<char>, reply: Option<Seq<char>>)
    ensures
        reply is None ==> request_result(method, reply) == Err::<Seq<char>, Seq<char>>(
            "rust-analyzer request '"@ + method + "' timed out after "@ + decimal(30) + "s"@,
        ),
        reply matches Some(message) ==> request_result(method, reply) == reply_result(message),
        reply matches Some(message) ==> {
            let error = json_member(message, "error"@);
            let result = json_member(message, "result"@);
            &&& error is Some && error->Some_0 is Some ==> request_result(method, reply) == Err::<
                Seq<char>,
                Seq<char>,
            >("rust-analyzer error: "@ + error->Some_0->Some_0)
            &&& !(error is Some && error->Some_0 is Some) && result is Some && result->Some_0
                is Some ==> request_result(method, reply) == Ok::<Seq<char>, Seq<char>>(
                result->Some_0->Some_0,
            )
            &&& !(error is Some && error->Some_0 is Some) && !(result is Some && result->Some_0
                is Some) ==> request_result(method, reply) == Ok::<Seq<char>, Seq<char>>("null"@)
        },
{
}

/// A line of a header that tells a length changes what was told before; any other changes
/// nothing. An empty line ends the header: as many bytes follow as were told, or another header
/// where none were.
pub proof fn law_header_is_read(told: nat, rest: Seq<char>, line: Seq<char>)
    ensures
        !has_prefix(rest, "Content-Length: "@) ==> after_line(told, "Content-Length: "@ + rest)
            == ReadStepView::Line(
            match parsed_size(trimmed(rest)) {
                Some(length) => length as nat,
                None => told,
            },
        ),
        !has_prefix(line, "Content-Length: "@) && line != "\r\n"@ && line != "\n"@ ==> after_line(
            told,
            line,
        ) == ReadStepView::Line(told),
        told > 0 ==> after_line(told, "\r\n"@) == ReadStepView::Body(told) && after_line(
            told,
            "\n"@,
        ) == ReadStepView::Body(told),
        after_line(0, "\r\n"@) == ReadStepView::Line(0),
        after_line(0, "\n"@) == ReadStepView::Line(0),
{
    let prefix = "Content-Length: "@;
    let told_line = prefix + rest;
    reveal_strlit("Content-Length: ");
    reveal_strlit("\r\n");
    reveal_strlit("\n");
    assert(told_line.take(prefix.len() as int) =~= prefix);
    assert(told_line.skip(prefix.len() as int) =~= rest);
    reveal_with_fuel(without_prefixes, 2);
    assert(told_line[0] == 'C');
}

/// What is written for requests and notifications: the version of the protocol, the id of the
/// request, the method, and the parameters as they are given; for the first request the
/// process and the root of the workspace, for symbols what is looked for.
pub proof fn law_messages_are_written(
    id: nat,
    method: Seq<char>,
    params: Seq<char>,
    process_id: nat,
    root: Seq<char>,
)
    ensures
        JSONRPC_VERSION@ == "2.0"@,
        request_json("2.0"@, id, method, params) == "{\"jsonrpc\":"@ + json_quoted("2.0"@)
            + ",\"id\":"@ + decimal(id) + ",\"method\":"@ + json_quoted(method) + ",\"params\":"@
            + params + "}"@,
        notification_json("2.0"@, method, params) == "{\"jsonrpc\":"@ + json_quoted("2.0"@)
            + ",\"method\":"@ + json_quoted(method) + ",\"params\":"@ + params + "}"@,
        symbol_params(root) == "{\"query\":"@ + json_quoted(root) + "}"@,
        initialize_params(process_id, root)
            == "{\"capabilities\":{\"textDocument\":{\"documentSymbol\":{\"hierarchicalDocumentSymbolSupport\":true}},\"workspace\":{\"symbol\":{\"dynamicRegistration\":true},\"workspaceFolders\":true}},\"processId\":"@
            + decimal(process_id) + ",\"rootUri\":"@ + json_quoted("file://"@ + root) + "}"@,
{
}

} // verus!
