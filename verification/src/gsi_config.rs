//! The Dota 2 Game State Integration (GSI) configuration file and the
//! addresses that the configuration and the event server share.

use vstd::prelude::*;

use crate::text::{decimal, push_decimal};
use crate::vdf::{escape, escape_vdf};

verus! {

/// Name of the Game State Integration configuration file this tool manages.
pub const CFG_FILE_NAME: &'static str = "gamestate_integration_dota2_assistant.cfg";

/// The GSI data sections enabled in the configuration file, in order.
pub open spec fn data_sections_spec() -> Seq<Seq<char>> {
    seq![
        "buildings"@,
        "provider"@,
        "map"@,
        "player"@,
        "hero"@,
        "abilities"@,
        "items"@,
        "draft"@,
        "wearables"@,
    ]
}

/// The GSI data sections enabled in the configuration file.
pub fn data_sections() -> (res: Vec<&'static str>)
    ensures
        res@.map_values(|s: &str| s@) == data_sections_spec(),
{
    let res: Vec<&'static str> = vec![
        "buildings",
        "provider",
        "map",
        "player",
        "hero",
        "abilities",
        "items",
        "draft",
        "wearables",
    ];
    assert(res@.map_values(|s: &str| s@) =~= data_sections_spec());
    res
}

/// The line that enables one data section.
pub open spec fn section_line(section: Seq<char>) -> Seq<char> {
    "        \""@ + section + "\"         \"1\"\n"@
}

/// The lines that enable the data sections `secs`, in order.
pub open spec fn sections_text(secs: Seq<Seq<char>>) -> Seq<char>
    decreases secs.len(),
{
    if secs.len() == 0 {
        Seq::<char>::empty()
    } else {
        sections_text(secs.drop_last()) + section_line(secs.last())
    }
}

/// The `auth` block: present only when a token is given, with the token
/// escaped for VDF.
pub open spec fn auth_text(token: Option<Seq<char>>) -> Seq<char> {
    match token {
        Some(t) => "    \"auth\"\n    {\n"@ + "        \"token\"         \""@ + escape(t) + "\"\n"@
            + "    }\n"@,
        None => Seq::<char>::empty(),
    }
}

/// The whole configuration file for the server URI `uri` and the optional
/// auth token `token`.
pub open spec fn config_text(uri: Seq<char>, token: Option<Seq<char>>) -> Seq<char> {
    "\"dota2-assistant Configuration\"\n{\n"@ + "    \"uri\"               \""@ + uri + "\"\n"@
        + "    \"timeout\"           \"5.0\"\n"@ + "    \"buffer\"            \"0.1\"\n"@
        + "    \"throttle\"          \"0.1\"\n"@ + "    \"heartbeat\"         \"30.0\"\n"@
        + "    \"data\"\n    {\n"@ + sections_text(data_sections_spec()) + "    }\n"@
        + auth_text(token) + "}\n"@
}

/// Build the contents of the `gamestate_integration_*.cfg` file.
///
/// `uri` must match the URI the assistant server is bound to, e.g.
/// `http://127.0.0.1:53000/`. `token` is optional; when present Dota 2
/// includes it as `auth.token` in every payload.
pub fn config_contents(uri: &str, token: Option<&str>) -> (res: String)
    ensures
        res@ == config_text(
            uri@,
            match token {
                Some(t) => Some(t@),
                None => None,
            },
        ),
{
    let mut out = String::from_str("\"dota2-assistant Configuration\"\n{\n");
    out.append("    \"uri\"               \"");
    out.append(uri);
    out.append("\"\n");
    out.append("    \"timeout\"           \"5.0\"\n");
    out.append("    \"buffer\"            \"0.1\"\n");
    out.append("    \"throttle\"          \"0.1\"\n");
    out.append("    \"heartbeat\"         \"30.0\"\n");
    out.append("    \"data\"\n    {\n");
    let ghost head = out@;
    let sections = data_sections();
    let n = sections.len();
    let ghost secs = data_sections_spec();
    let mut i: usize = 0;
    while i < n
        invariant
            n == secs.len(),
            sections@.map_values(|s: &str| s@) == secs,
            secs == data_sections_spec(),
            0 <= i <= n,
            out@ == head + sections_text(secs.take(i as int)),
        decreases n - i,
    {
        let section = sections[i];
        assert(sections@.map_values(|s: &str| s@)[i as int] == section@);
        out.append("        \"");
        out.append(section);
        out.append("\"         \"1\"\n");
        assert(secs.take(i + 1).drop_last() =~= secs.take(i as int));
        assert(out@ =~= head + sections_text(secs.take(i + 1)));
        i = i + 1;
    }
    assert(secs.take(n as int) =~= secs);
    out.append("    }\n");
    let ghost body = out@;
    match token {
        Some(t) => {
            out.append("    \"auth\"\n    {\n");
            out.append("        \"token\"         \"");
            let escaped = escape_vdf(t);
            out.append(escaped.as_str());
            out.append("\"\n");
            out.append("    }\n");
            assert(out@ =~= body + auth_text(Some(t@)));
        },
        None => {
            assert(out@ =~= body + auth_text(None));
        },
    }
    out.append("}\n");
    out
}

/// The address the event server binds to for `port`, e.g. `127.0.0.1:53000`.
pub open spec fn bind_address_spec(port: u16) -> Seq<char> {
    "127.0.0.1:"@ + decimal(port as nat)
}

/// The URI Dota 2 sends events to for `port`, e.g. `http://127.0.0.1:53000/`.
pub open spec fn gsi_uri_spec(port: u16) -> Seq<char> {
    "http://"@ + bind_address_spec(port) + "/"@
}

/// The local address the GSI event server listens on.
pub fn bind_address(port: u16) -> (res: String)
    ensures
        res@ == bind_address_spec(port),
{
    let mut out = String::from_str("127.0.0.1:");
    push_decimal(&mut out, port as u32);
    out
}

/// The URI written into the configuration file so that Dota 2 posts its
/// events to the server listening on `port`.
pub fn gsi_uri(port: u16) -> (res: String)
    ensures
        res@ == gsi_uri_spec(port),
{
    let mut out = String::from_str("http://");
    let bind = bind_address(port);
    out.append(bind.as_str());
    out.append("/");
    assert(out@ =~= gsi_uri_spec(port));
    out
}

/// The configuration written for a port sends Dota 2's events to the very
/// address the server binds for that port: the URI is `http://`, the bind
/// address, and `/`.
pub proof fn lemma_uri_targets_bind_address(port: u16)
    ensures
        gsi_uri_spec(port) == "http://"@ + bind_address_spec(port) + "/"@,
        config_text(gsi_uri_spec(port), None) == "\"dota2-assistant Configuration\"\n{\n"@
            + "    \"uri\"               \""@ + "http://"@ + bind_address_spec(port) + "/"@
            + "\"\n"@ + "    \"timeout\"           \"5.0\"\n"@
            + "    \"buffer\"            \"0.1\"\n"@ + "    \"throttle\"          \"0.1\"\n"@
            + "    \"heartbeat\"         \"30.0\"\n"@ + "    \"data\"\n    {\n"@
            + sections_text(data_sections_spec()) + "    }\n"@ + "}\n"@,
{
    assert(config_text(gsi_uri_spec(port), None) =~= "\"dota2-assistant Configuration\"\n{\n"@
        + "    \"uri\"               \""@ + "http://"@ + bind_address_spec(port) + "/"@ + "\"\n"@
        + "    \"timeout\"           \"5.0\"\n"@ + "    \"buffer\"            \"0.1\"\n"@
        + "    \"throttle\"          \"0.1\"\n"@ + "    \"heartbeat\"         \"30.0\"\n"@
        + "    \"data\"\n    {\n"@ + sections_text(data_sections_spec()) + "    }\n"@ + "}\n"@);
}

/// The nine enabled data sections, written out.
pub open spec fn all_section_lines() -> Seq<char> {
    "        \""@ + "buildings"@ + "\"         \"1\"\n"@ + "        \""@ + "provider"@
        + "\"         \"1\"\n"@ + "        \""@ + "map"@ + "\"         \"1\"\n"@ + "        \""@
        + "player"@ + "\"         \"1\"\n"@ + "        \""@ + "hero"@ + "\"         \"1\"\n"@
        + "        \""@ + "abilities"@ + "\"         \"1\"\n"@ + "        \""@ + "items"@
        + "\"         \"1\"\n"@ + "        \""@ + "draft"@ + "\"         \"1\"\n"@ + "        \""@
        + "wearables"@ + "\"         \"1\"\n"@
}

/// Whatever the token, the data block enables the nine sections
/// `buildings`, `provider`, `map`, `player`, `hero`, `abilities`, `items`,
/// `draft` and `wearables`, in that order, and is followed only by the auth
/// block (empty without a token) and the closing brace.
pub proof fn lemma_config_enables_all_sections(uri: Seq<char>, token: Option<Seq<char>>)
    ensures
        exists|pre: Seq<char>|
            config_text(uri, token) == pre + "    \"data\"\n    {\n"@ + all_section_lines()
                + "    }\n"@ + auth_text(token) + "}\n"@,
{
    reveal_with_fuel(sections_text, 10);
    let secs = data_sections_spec();
    assert(sections_text(secs) =~= all_section_lines());
    let pre = "\"dota2-assistant Configuration\"\n{\n"@ + "    \"uri\"               \""@ + uri
        + "\"\n"@ + "    \"timeout\"           \"5.0\"\n"@ + "    \"buffer\"            \"0.1\"\n"@
        + "    \"throttle\"          \"0.1\"\n"@ + "    \"heartbeat\"         \"30.0\"\n"@;
    assert(config_text(uri, token) =~= pre + "    \"data\"\n    {\n"@ + all_section_lines()
        + "    }\n"@ + auth_text(token) + "}\n"@);
}

/// A token changes nothing but inserting the auth block, holding the
/// escaped token, before the final closing brace.
pub proof fn lemma_token_only_adds_auth_block(uri: Seq<char>, t: Seq<char>)
    ensures
        exists|pre: Seq<char>|
            config_text(uri, None) == pre + "}\n"@ && config_text(uri, Some(t)) == pre
                + "    \"auth\"\n    {\n"@ + "        \"token\"         \""@ + escape(t) + "\"\n"@
                + "    }\n"@ + "}\n"@,
{
    let pre = "\"dota2-assistant Configuration\"\n{\n"@ + "    \"uri\"               \""@ + uri
        + "\"\n"@ + "    \"timeout\"           \"5.0\"\n"@ + "    \"buffer\"            \"0.1\"\n"@
        + "    \"throttle\"          \"0.1\"\n"@ + "    \"heartbeat\"         \"30.0\"\n"@
        + "    \"data\"\n    {\n"@ + sections_text(data_sections_spec()) + "    }\n"@;
    assert(config_text(uri, None) =~= pre + "}\n"@);
    assert(config_text(uri, Some(t)) =~= pre + "    \"auth\"\n    {\n"@ + "        \"token\"         \""@
        + escape(t) + "\"\n"@ + "    }\n"@ + "}\n"@);
}

} // verus!
