//! The settings file: a JSON document whose `mcpServers` member holds the MCP
//! configuration.
use crate::json::{
    as_object_mut, carries, copy, exact, exact_is_shallow, get, insert, member, members, new_map,
    object, parse, parsed, pretty_printed, print_pretty, shallow, READ_DEPTH,
};
use serde_json::Value;
use vstd::prelude::*;

verus! {

/// The document in the text of the settings file; `None` where the file could not
/// be read or holds no JSON.
pub open spec fn document_in(content: Option<Seq<char>>) -> Option<Value> {
    match content {
        Some(text) => parsed(text),
        None => None,
    }
}

/// The servers that a document holds.
pub open spec fn servers_in(document: Option<Value>) -> Option<Value> {
    match document {
        Some(v) => member(v, "mcpServers"@),
        None => None,
    }
}

/// The document `after` is the document `before` with the servers put in. A
/// missing document counts as an empty object, and one that is no object has no
/// place for the servers and stays as it is.
pub open spec fn holds_servers(after: Value, before: Option<Value>, servers: Value) -> bool {
    match before {
        Some(v) => match members(v) {
            Some(m) => members(after) == Some(m.insert("mcpServers"@, servers)),
            None => after == v,
        },
        None => members(after) == Some(map!["mcpServers"@ => servers]),
    }
}

/// The document is an object, or is yet to be made one.
pub open spec fn has_place_for_servers(document: Option<Value>) -> bool {
    document matches Some(v) ==> members(v) is Some
}

/// The servers that a document holds.
pub fn find_servers(document: &Value) -> (r: Option<Value>)
    ensures
        r == servers_in(Some(*document)),
{
    match get(document, "mcpServers") {
        Some(servers) => Some(copy(servers)),
        None => None,
    }
}

/// The servers in the text of the settings file, if it has any.
pub fn servers_section(content: Option<&str>) -> (r: Option<Value>)
    ensures
        r == servers_in(document_in(content.deep_view())),
{
    match content {
        Some(text) => match parse(text) {
            Ok(document) => find_servers(&document),
            Err(_) => None,
        },
        None => None,
    }
}

/// The document with the servers put in.
pub fn put_servers(document: Option<Value>, servers: Value) -> (r: Value)
    ensures
        holds_servers(r, document, servers),
{
    let mut settings = match document {
        Some(document) => document,
        None => object(new_map()),
    };
    if let Some(fields) = as_object_mut(&mut settings) {
        insert(fields, "mcpServers".to_owned(), servers);
    }
    proof {
        if document is None {
            assert(members(settings)->0 =~= map!["mcpServers"@ => servers]);
        }
    }
    settings
}

/// How deep the servers may be to be read from their place in the settings file.
pub open spec fn servers_depth() -> nat {
    (READ_DEPTH - 1) as nat
}

/// `text` is the settings file with the servers put in: it is written from a document
/// that holds them and everything that the file held before. Unless servers that are
/// deeper than can be read are in it, the text reads back as that document but for
/// fractional numbers; and if JSON text carries the servers unchanged, they are found in it
/// unchanged wherever they have a place, whatever else the file holds.
pub open spec fn is_settings_text(
    text: Seq<char>,
    document: Value,
    before: Option<Value>,
    servers: Value,
) -> bool {
    &&& holds_servers(document, before, servers)
    &&& text == pretty_printed(document)
    &&& exact(document, READ_DEPTH as nat) ==> parsed(text) == Some(document)
    &&& shallow(servers, servers_depth()) || !has_place_for_servers(before) ==> parsed(
        text,
    ) is Some
    &&& parsed(text) matches Some(w) ==> carries(w, document, READ_DEPTH as nat)
    &&& has_place_for_servers(before) && exact(servers, servers_depth()) ==> servers_in(
        document_in(Some(text)),
    ) == Some(servers)
}

/// The text of the settings file with the servers put in. A file that could not be
/// read is started anew.
pub fn settings_text(content: Option<&str>, servers: Value) -> (r: String)
    ensures
        exists|document: Value| #[trigger]
            is_settings_text(r@, document, document_in(content.deep_view()), servers),
{
    let before = match content {
        Some(text) => match parse(text) {
            Ok(document) => Some(document),
            Err(_) => None,
        },
        None => None,
    };
    let document = put_servers(before, servers);
    let r = match print_pretty(&document) {
        Ok(text) => text,
        Err(_) => vstd::pervasive::unreached(),
    };
    proof {
        if exact(servers, servers_depth()) {
            exact_is_shallow(servers, servers_depth());
        }
        if has_place_for_servers(before) {
            let fields = members(document)->0;
            assert(fields.contains_key("mcpServers"@));
            if shallow(servers, servers_depth()) {
                assert forall|key: Seq<char>| #[trigger] fields.contains_key(key) implies shallow(
                    fields[key],
                    servers_depth(),
                ) by {
                    if key != "mcpServers"@ {
                        assert(members(before->0)->0.contains_key(key));
                    }
                }
                assert(shallow(document, READ_DEPTH as nat));
                let read = parsed(r@)->0;
                assert(carries(read, document, READ_DEPTH as nat));
                assert(carries(members(read)->0["mcpServers"@], servers, servers_depth()));
            }
        }
        assert(is_settings_text(r@, document, document_in(content.deep_view()), servers));
    }
    r
}

/// The servers that were put into a document are the ones that are found in it, and
/// every other member is as it was.
pub proof fn saved_servers_are_found(before: Option<Value>, after: Value, servers: Value)
    requires
        holds_servers(after, before, servers),
        has_place_for_servers(before),
    ensures
        servers_in(Some(after)) == Some(servers),
        forall|key: Seq<char>|
            key != "mcpServers"@ ==> #[trigger] member(after, key) == (match before {
                Some(v) => member(v, key),
                None => None,
            }),
{
}

/// What is written to the settings file. The servers stand under `mcpServers`, in place
/// of what stood there. Everything else that the file held is there as it was, and
/// nothing more. A file that could not be read becomes one with the servers alone, and
/// one that holds something else than an object is written as it was.
pub proof fn the_settings_file_keeps_everything_else(
    text: Seq<char>,
    document: Value,
    content: Option<Seq<char>>,
    servers: Value,
    key: Seq<char>,
)
    requires
        is_settings_text(text, document, document_in(content), servers),
    ensures
        text == pretty_printed(document),
        ({
            let before = parsed(content->0);
            let unread = content is None || before is None;
            &&& unread ==> (members(document) matches Some(m) && m.len() == 1 && m.contains_pair(
                "mcpServers"@,
                servers,
            ))
            &&& !unread ==> (members(before->0) matches Some(held) ==> (members(
                document,
            ) matches Some(m) && m.contains_pair("mcpServers"@, servers) && m.dom()
                == held.dom().insert("mcpServers"@) && (key != "mcpServers"@ && held.contains_key(
                key,
            ) ==> m[key] == held[key])))
            &&& !unread && members(before->0) is None ==> document == before->0
        }),
{
    if content is None || parsed(content->0) is None {
        let m = members(document)->0;
        assert(m.dom() =~= Set::<Seq<char>>::empty().insert("mcpServers"@));
        assert(m.dom().len() == 1);
    } else if let Some(held) = members(parsed(content->0)->0) {
        assert(members(document)->0.dom() =~= held.dom().insert("mcpServers"@));
    }
}

/// Where the servers are looked for: under `mcpServers` in the object that the text of
/// the file is.
pub proof fn servers_are_found_by_their_key(
    content: Option<Seq<char>>,
    document: Value,
    servers: Value,
)
    ensures
        content is None ==> document_in(content) is None,
        content matches Some(text) ==> document_in(content) == parsed(text),
        servers_in(None) is None,
        servers_in(Some(document)) == Some(servers) <==> (members(document) matches Some(m)
            && m.contains_pair("mcpServers"@, servers)),
        has_place_for_servers(None),
        has_place_for_servers(Some(document)) <==> members(document) is Some,
{
}

/// The settings are read back after they were written: whatever the file held before, if
/// the servers have a place and text carries them unchanged, they are found again.
pub proof fn saved_servers_are_read_back(
    text: Seq<char>,
    document: Value,
    content: Option<Seq<char>>,
    servers: Value,
)
    requires
        is_settings_text(text, document, document_in(content), servers),
        exact(servers, (READ_DEPTH - 1) as nat),
        content is None || parsed(content->0) is None || members(parsed(content->0)->0) is Some,
    ensures
        parsed(text) matches Some(w) && (members(w) matches Some(m) && m.contains_pair(
            "mcpServers"@,
            servers,
        )),
{
}

/// A settings file that was written can be read again, fractional numbers or not, unless
/// the servers are too deep for any reader. It then holds the keys that it held before
/// and that of the servers, and under each of them what text carries unchanged is as it
/// was.
pub proof fn written_settings_are_read_back(
    text: Seq<char>,
    document: Value,
    before: Value,
    servers: Value,
    key: Seq<char>,
)
    requires
        is_settings_text(text, document, Some(before), servers),
        members(before) is Some,
        shallow(servers, (READ_DEPTH - 1) as nat),
    ensures
        parsed(text) matches Some(w) && (members(w) matches Some(read) && {
            let held = members(before)->0;
            &&& read.dom() == held.dom().insert("mcpServers"@)
            &&& held.contains_key(key) && key != "mcpServers"@ && exact(
                held[key],
                (READ_DEPTH - 1) as nat,
            ) ==> read[key] == held[key]
            &&& exact(servers, (READ_DEPTH - 1) as nat) ==> read["mcpServers"@] == servers
        }),
{
    let held = members(before)->0;
    let fields = members(document)->0;
    let w = parsed(text)->0;
    assert(fields.dom() =~= held.dom().insert("mcpServers"@));
    assert(carries(w, document, READ_DEPTH as nat));
    assert(fields.contains_key("mcpServers"@));
    if held.contains_key(key) && key != "mcpServers"@ {
        assert(fields.contains_key(key));
        assert(carries((members(w)->0)[key], held[key], (READ_DEPTH - 1) as nat));
    }
    assert(carries((members(w)->0)["mcpServers"@], servers, (READ_DEPTH - 1) as nat));
}

} // verus!
