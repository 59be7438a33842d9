//! The command line's errors, argument checks and text renderings.
use vstd::prelude::*;
use core::time::Duration;

use crate::api::{
    BufferResponse, ConsolidateResponse, ConsolidationGroupResponse, DeleteResponse,
    ForgetResponse, HealthCheckDto, HealthResponse,
};
use crate::client::{
    ClientError, ErrorCategory, ExitCode, HttpRoute, category_of, exit_code_of, first_index_of,
};
use crate::numbers::{float_syntax, float_text};
use crate::order::str_eq;
use crate::text::{blank, decimal, decimal_text, is_blank, joined, join_strings, push_str};

verus! {

#[derive(Debug)]
pub enum CliError {
    Usage { detail: String, hint: String },
    Client { source: ClientError, hint: String },
    Internal { detail: String, hint: String },
}

/// The exit code of a command-line error.
pub open spec fn cli_exit_code(e: CliError) -> i32 {
    match e {
        CliError::Usage { .. } => exit_code_of(ErrorCategory::Usage),
        CliError::Client { source, .. } => exit_code_of(category_of(source)),
        CliError::Internal { .. } => exit_code_of(ErrorCategory::Internal),
    }
}

/// A usage error with this detail and hint.
pub open spec fn is_usage(e: CliError, detail: Seq<char>, hint: Seq<char>) -> bool {
    e matches CliError::Usage { detail: d, hint: h } && d@ == detail && h@ == hint
}

impl CliError {
    pub fn usage(detail: String, hint: String) -> (r: Self)
        ensures
            r == (CliError::Usage { detail, hint }),
    {
        CliError::Usage { detail, hint }
    }

    pub fn client(source: ClientError, hint: String) -> (r: Self)
        ensures
            r == (CliError::Client { source, hint }),
    {
        CliError::Client { source, hint }
    }

    pub fn internal(detail: String, hint: String) -> (r: Self)
        ensures
            r == (CliError::Internal { detail, hint }),
    {
        CliError::Internal { detail, hint }
    }

    pub fn exit_code(&self) -> (r: ExitCode)
        ensures
            r.0 == cli_exit_code(*self),
    {
        match self {
            CliError::Usage { .. } => ErrorCategory::Usage.exit_code(),
            CliError::Client { source, .. } => source.exit_code(),
            CliError::Internal { .. } => ErrorCategory::Internal.exit_code(),
        }
    }
}

#[derive(Debug, Clone, Copy, PartialEq, Eq)]
pub enum OutputFormat {
    Text,
    Json,
    PrettyJson,
}

impl OutputFormat {
    pub fn parse(value: &str) -> (r: Result<Self, String>)
        ensures
            value@ == "text"@ ==> r == Ok::<OutputFormat, String>(OutputFormat::Text),
            value@ == "json"@ ==> r == Ok::<OutputFormat, String>(OutputFormat::Json),
            value@ == "pretty-json"@ ==> r == Ok::<OutputFormat, String>(OutputFormat::PrettyJson),
            value@ != "text"@ && value@ != "json"@ && value@ != "pretty-json"@ ==> (r matches Err(
                m,
            ) && m@ == "format must be text, json, or pretty-json"@),
    {
        proof {
            reveal_strlit("text");
            reveal_strlit("json");
            reveal_strlit("pretty-json");
            assert("text"@[0] != "json"@[0]);
            assert("text"@.len() != "pretty-json"@.len());
            assert("json"@.len() != "pretty-json"@.len());
        }
        if str_eq(value, "text") {
            Ok(OutputFormat::Text)
        } else if str_eq(value, "json") {
            Ok(OutputFormat::Json)
        } else if str_eq(value, "pretty-json") {
            Ok(OutputFormat::PrettyJson)
        } else {
            Err(String::from_str("format must be text, json, or pretty-json"))
        }
    }
}

#[derive(Debug, Clone)]
pub struct GlobalOptions {
    pub api_url: String,
    pub agent_id: Option<String>,
    pub format: OutputFormat,
    pub timeout: Duration,
    pub agent_footer: bool,
    pub verbose: bool,
}

/// The usage error of a command run without an agent.
pub fn missing_agent_error(command: &str) -> (r: CliError)
    ensures
        is_usage(
            r,
            command@ + ": missing agent id"@,
            "Use: actr-memory --agent <agent-id> "@ + command@,
        ),
{
    CliError::usage(
        String::from_str(command).concat(": missing agent id"),
        String::from_str("Use: actr-memory --agent <agent-id> ").concat(command),
    )
}

/// The hint shown with a client error of each category.
pub open spec fn client_hint(c: ErrorCategory) -> Seq<char> {
    match c {
        ErrorCategory::Unavailable => "Start API: actr-memory serve\nCheck config: actr-memory doctor"@,
        ErrorCategory::BadRequest => "Explore: actr-memory guide errors"@,
        ErrorCategory::NotFound => "Explore: actr-memory guide errors"@,
        ErrorCategory::Conflict => "Explore: actr-memory guide errors"@,
        ErrorCategory::Usage => "Explore: actr-memory guide commands"@,
        ErrorCategory::Internal => "Explore: actr-memory guide commands"@,
    }
}

/// Reports a client error with the hint for its category.
pub fn map_client_error(error: ClientError) -> (r: CliError)
    ensures
        r matches CliError::Client { source, hint } && source == error && hint@ == client_hint(
            category_of(error),
        ),
{
    let hint = match error.category() {
        ErrorCategory::Unavailable => String::from_str(
            "Start API: actr-memory serve\nCheck config: actr-memory doctor",
        ),
        ErrorCategory::BadRequest | ErrorCategory::NotFound | ErrorCategory::Conflict => {
            String::from_str("Explore: actr-memory guide errors")
        },
        ErrorCategory::Usage | ErrorCategory::Internal => String::from_str(
            "Explore: actr-memory guide commands",
        ),
    };
    CliError::client(error, hint)
}

/// The value of a required argument, or the usage error for its absence.
pub fn required_string(value: Option<String>, name: &str) -> (r: Result<String, CliError>)
    ensures
        match value {
            Some(v) => r == Ok::<String, CliError>(v),
            None => r matches Err(e) && is_usage(
                e,
                "missing required argument "@ + name@,
                "Explore: actr-memory guide commands"@,
            ),
        },
{
    match value {
        Some(v) => Ok(v),
        None => Err(
            CliError::usage(
                String::from_str("missing required argument ").concat(name),
                String::from_str("Explore: actr-memory guide commands"),
            ),
        ),
    }
}

/// The words accepted for true and for false.
pub open spec fn bool_word(value: Seq<char>) -> Option<bool> {
    if value == "true"@ || value == "1"@ || value == "yes"@ || value == "on"@ {
        Some(true)
    } else if value == "false"@ || value == "0"@ || value == "no"@ || value == "off"@ {
        Some(false)
    } else {
        None
    }
}

/// Reads a boolean word; anything else is a usage error naming `field`.
pub fn parse_bool(value: &str, field: &str) -> (r: Result<bool, CliError>)
    ensures
        match bool_word(value@) {
            Some(b) => r matches Ok(x) && x == b,
            None => r matches Err(e) && is_usage(
                e,
                field@ + ": expected true or false"@,
                "Explore: actr-memory guide slots"@,
            ),
        },
{
    if str_eq(value, "true") || str_eq(value, "1") || str_eq(value, "yes") || str_eq(value, "on") {
        Ok(true)
    } else if str_eq(value, "false") || str_eq(value, "0") || str_eq(value, "no") || str_eq(
        value,
        "off",
    ) {
        Ok(false)
    } else {
        Err(
            CliError::usage(
                String::from_str(field).concat(": expected true or false"),
                String::from_str("Explore: actr-memory guide slots"),
            ),
        )
    }
}

/// Reads an optional boolean argument.
pub fn parse_bool_option(value: Option<&str>, name: &str) -> (r: Result<Option<bool>, CliError>)
    ensures
        match value {
            None => r matches Ok(None),
            Some(v) => match bool_word(v@) {
                Some(b) => r matches Ok(Some(x)) && x == b,
                None => r matches Err(e) && is_usage(
                    e,
                    name@ + ": expected true or false"@,
                    "Explore: actr-memory guide slots"@,
                ),
            },
        },
{
    match value {
        None => Ok(None),
        Some(v) => match parse_bool(v, name) {
            Ok(b) => Ok(Some(b)),
            Err(e) => Err(e),
        },
    }
}

/// The hint of a malformed slot.
pub open spec fn slot_hint() -> Seq<char> {
    "Use typed values: --slot key=symbol:value\nExplore: actr-memory guide slots"@
}

/// The usage error of a malformed slot assignment.
pub fn slot_error(raw: &str) -> (r: CliError)
    ensures
        is_usage(r, "invalid slot value \""@ + raw@ + "\""@, slot_hint()),
{
    CliError::usage(
        String::from_str("invalid slot value \"").concat(raw).concat("\""),
        String::from_str("Use typed values: --slot key=symbol:value\nExplore: actr-memory guide slots"),
    )
}

/// A typed slot value as written on the command line. A number is kept as
/// its text, checked to be one that `f64::from_str` reads: reading it is
/// floating-point parsing.
#[derive(Debug, Clone, PartialEq, Eq)]
pub enum SlotInput {
    Symbol(String),
    Text(String),
    Number(String),
    Bool(bool),
}

/// What a `key=type:value` assignment reads as: the key, the type and the
/// value text, or none when it is malformed.
pub open spec fn slot_parts(raw: Seq<char>) -> Option<(Seq<char>, Seq<char>, Seq<char>)> {
    let e = first_index_of(raw, '=');
    if e < 0 {
        None
    } else {
        let key = raw.subrange(0, e);
        let rest = raw.skip(e + 1);
        let c = first_index_of(rest, ':');
        if is_blank(key) || c < 0 {
            None
        } else {
            Some((key, rest.subrange(0, c), rest.skip(c + 1)))
        }
    }
}

/// Splits and types a `key=type:value` slot assignment. The types are
/// `symbol`, `text`, `number` and `bool`; a number must be one that
/// `f64::from_str` reads, and a bool value a boolean word.
pub fn parse_slot_assignment(raw: &str) -> (r: Result<(String, SlotInput), CliError>)
    ensures
        match slot_parts(raw@) {
            None => r matches Err(e) && is_usage(e, "invalid slot value \""@ + raw@ + "\""@, slot_hint()),
            Some((key, kind, value)) => {
                if kind == "symbol"@ {
                    r matches Ok((k, SlotInput::Symbol(v))) && k@ == key && v@ == value
                } else if kind == "text"@ {
                    r matches Ok((k, SlotInput::Text(v))) && k@ == key && v@ == value
                } else if kind == "number"@ {
                    if float_syntax(value) {
                        r matches Ok((k, SlotInput::Number(v))) && k@ == key && v@ == value
                    } else {
                        r matches Err(e) && is_usage(e, "invalid slot value \""@ + raw@ + "\""@, slot_hint())
                    }
                } else if kind == "bool"@ {
                    match bool_word(value) {
                        Some(b) => r matches Ok((k, SlotInput::Bool(x))) && k@ == key && x == b,
                        None => r matches Err(e) && is_usage(
                            e,
                            "slot bool"@ + ": expected true or false"@,
                            "Explore: actr-memory guide slots"@,
                        ),
                    }
                } else {
                    r matches Err(e) && is_usage(e, "invalid slot value \""@ + raw@ + "\""@, slot_hint())
                }
            },
        },
{
    let n = raw.unicode_len();
    let mut e: usize = 0;
    while e < n && raw.get_char(e) != '='
        invariant
            n == raw@.len(),
            e <= n,
            forall|j: int| 0 <= j < e ==> raw@[j] != '=',
        decreases n - e,
    {
        e = e + 1;
    }
    proof {
        crate::client::lemma_first_index(raw@, '=', e as int);
    }
    if e == n {
        return Err(slot_error(raw));
    }
    let key = raw.substring_char(0, e);
    if blank(key) {
        return Err(slot_error(raw));
    }
    let mut c: usize = e + 1;
    while c < n && raw.get_char(c) != ':'
        invariant
            n == raw@.len(),
            e + 1 <= c <= n,
            forall|j: int| e + 1 <= j < c ==> raw@[j] != ':',
        decreases n - c,
    {
        c = c + 1;
    }
    let ghost rest = raw@.skip(e + 1);
    proof {
        assert forall|j: int| 0 <= j < c - (e + 1) implies rest[j] != ':' by {
            assert(rest[j] == raw@[j + e + 1]);
        }
        if c < n {
            assert(rest[c - (e + 1)] == raw@[c as int]);
        }
        crate::client::lemma_first_index(rest, ':', c - (e + 1));
    }
    if c == n {
        return Err(slot_error(raw));
    }
    let kind = raw.substring_char(e + 1, c);
    let value = raw.substring_char(c + 1, n);
    assert(kind@ == rest.subrange(0, c - (e + 1)));
    assert(value@ == rest.skip(c - e));
    let key_text = String::from_str(key);
    if str_eq(kind, "symbol") {
        Ok((key_text, SlotInput::Symbol(String::from_str(value))))
    } else if str_eq(kind, "text") {
        Ok((key_text, SlotInput::Text(String::from_str(value))))
    } else if str_eq(kind, "number") {
        if float_text(value) {
            Ok((key_text, SlotInput::Number(String::from_str(value))))
        } else {
            Err(slot_error(raw))
        }
    } else if str_eq(kind, "bool") {
        match parse_bool(value, "slot bool") {
            Ok(b) => Ok((key_text, SlotInput::Bool(b))),
            Err(e) => Err(e),
        }
    } else {
        Err(slot_error(raw))
    }
}

/// `true` or `false`, as `Display` writes a bool.
pub open spec fn bool_text(b: bool) -> Seq<char> {
    if b { "true"@ } else { "false"@ }
}

fn push_bool(s: &mut String, b: bool)
    ensures
        final(s)@ == old(s)@ + bool_text(b),
{
    if b {
        push_str(s, "true");
    } else {
        push_str(s, "false");
    }
}

pub fn render_delete(response: &DeleteResponse) -> (r: String)
    ensures
        r@ == "chunk "@ + response.chunk_id@ + " deleted\nagent: "@ + response.agent_id@
            + "\ndeleted: "@ + bool_text(response.deleted),
{
    let mut s = String::from_str("chunk ");
    push_str(&mut s, response.chunk_id.as_str());
    push_str(&mut s, " deleted\nagent: ");
    push_str(&mut s, response.agent_id.as_str());
    push_str(&mut s, "\ndeleted: ");
    push_bool(&mut s, response.deleted);
    s
}

/// `values` joined with `, `, or `<none>` when there are none.
pub open spec fn list_text(values: Seq<String>) -> Seq<char> {
    if values.len() == 0 {
        "<none>"@
    } else {
        joined(values.map_values(|v: String| v@), ", "@)
    }
}

pub fn render_list(values: &Vec<String>) -> (r: String)
    ensures
        r@ == list_text(values@),
{
    if values.len() == 0 {
        String::from_str("<none>")
    } else {
        join_strings(values, ", ")
    }
}

/// The line of one consolidation group.
pub open spec fn group_line(g: ConsolidationGroupResponse) -> Seq<char> {
    "- "@ + g.summary_chunk_id@ + " from "@ + joined(g.source_chunk_ids@.map_values(|v: String| v@), ", "@)
}

pub open spec fn consolidate_text(r: ConsolidateResponse) -> Seq<char> {
    joined(
        seq![
            "consolidate: "@ + decimal(r.groups_consolidated as nat) + " groups\nagent: "@
                + r.agent_id@ + "\nconsidered: "@ + decimal(r.groups_considered as nat),
        ] + r.summaries@.map_values(|g: ConsolidationGroupResponse| group_line(g)),
        "\n"@,
    )
}

pub fn render_consolidate(response: &ConsolidateResponse) -> (r: String)
    ensures
        r@ == consolidate_text(*response),
{
    let mut head = String::from_str("consolidate: ");
    push_str(&mut head, decimal_text(response.groups_consolidated as u64).as_str());
    push_str(&mut head, " groups\nagent: ");
    push_str(&mut head, response.agent_id.as_str());
    push_str(&mut head, "\nconsidered: ");
    push_str(&mut head, decimal_text(response.groups_considered as u64).as_str());
    let mut lines: Vec<String> = Vec::new();
    lines.push(head);
    let ghost groups = response.summaries@.map_values(|g: ConsolidationGroupResponse| group_line(g));
    let mut i: usize = 0;
    while i < response.summaries.len()
        invariant
            i <= response.summaries@.len(),
            groups == response.summaries@.map_values(|g: ConsolidationGroupResponse| group_line(g)),
            lines@.len() == i + 1,
            lines@[0]@ == "consolidate: "@ + decimal(response.groups_consolidated as nat)
                + " groups\nagent: "@ + response.agent_id@ + "\nconsidered: "@ + decimal(
                response.groups_considered as nat,
            ),
            forall|k: int| 0 <= k < i ==> (#[trigger] lines@[k + 1])@ == groups[k],
        decreases response.summaries@.len() - i,
    {
        let g = &response.summaries[i];
        let mut line = String::from_str("- ");
        push_str(&mut line, g.summary_chunk_id.as_str());
        push_str(&mut line, " from ");
        push_str(&mut line, join_strings(&g.source_chunk_ids, ", ").as_str());
        lines.push(line);
        assert(lines@[i + 1]@ == groups[i as int]);
        i = i + 1;
    }
    let r = join_strings(&lines, "\n");
    let ghost expected = seq![
        "consolidate: "@ + decimal(response.groups_consolidated as nat) + " groups\nagent: "@
            + response.agent_id@ + "\nconsidered: "@ + decimal(response.groups_considered as nat),
    ] + groups;
    let ghost views = lines@.map_values(|p: String| p@);
    assert(views =~= expected) by {
        assert forall|k: int| 0 <= k < expected.len() implies #[trigger] views[k] == expected[k] by {
            if k > 0 {
                assert(lines@[(k - 1) + 1]@ == groups[k - 1]);
            }
        }
    }
    r
}

pub open spec fn forget_text(r: ForgetResponse) -> Seq<char> {
    "forget: examined "@ + decimal(r.examined as nat) + "\nagent: "@ + r.agent_id@
        + "\nforgotten: "@ + list_text(r.forgotten_chunk_ids@) + "\narchived: "@ + list_text(
        r.archived_chunk_ids@,
    ) + "\nprotected: "@ + list_text(r.protected_chunk_ids@)
}

pub fn render_forget(response: &ForgetResponse) -> (r: String)
    ensures
        r@ == forget_text(*response),
{
    let mut s = String::from_str("forget: examined ");
    push_str(&mut s, decimal_text(response.examined as u64).as_str());
    push_str(&mut s, "\nagent: ");
    push_str(&mut s, response.agent_id.as_str());
    push_str(&mut s, "\nforgotten: ");
    push_str(&mut s, render_list(&response.forgotten_chunk_ids).as_str());
    push_str(&mut s, "\narchived: ");
    push_str(&mut s, render_list(&response.archived_chunk_ids).as_str());
    push_str(&mut s, "\nprotected: ");
    push_str(&mut s, render_list(&response.protected_chunk_ids).as_str());
    s
}

/// An optional text, or a placeholder when it is absent.
pub open spec fn or_text(v: Option<String>, placeholder: Seq<char>) -> Seq<char> {
    match v {
        Some(s) => s@,
        None => placeholder,
    }
}

pub open spec fn buffer_text(r: BufferResponse) -> Seq<char> {
    "buffer "@ + r.buffer_name@ + " set\nagent: "@ + r.agent_id@ + "\nchunk: "@ + or_text(
        r.chunk_id,
        "<empty>"@,
    ) + "\ntype: "@ + or_text(r.chunk_type, "<unknown>"@) + "\nupdated_at_ms: "@ + decimal(
        r.updated_at_ms as nat,
    )
}

pub fn render_buffer(response: &BufferResponse) -> (r: String)
    ensures
        r@ == buffer_text(*response),
{
    let mut s = String::from_str("buffer ");
    push_str(&mut s, response.buffer_name.as_str());
    push_str(&mut s, " set\nagent: ");
    push_str(&mut s, response.agent_id.as_str());
    push_str(&mut s, "\nchunk: ");
    match &response.chunk_id {
        Some(id) => push_str(&mut s, id.as_str()),
        None => push_str(&mut s, "<empty>"),
    }
    push_str(&mut s, "\ntype: ");
    match &response.chunk_type {
        Some(t) => push_str(&mut s, t.as_str()),
        None => push_str(&mut s, "<unknown>"),
    }
    push_str(&mut s, "\nupdated_at_ms: ");
    push_str(&mut s, decimal_text(response.updated_at_ms).as_str());
    s
}

/// The line of one health check.
pub open spec fn check_line(c: HealthCheckDto) -> Seq<char> {
    "- "@ + c.name@ + ": "@ + c.status@ + " - "@ + c.detail@
}

pub open spec fn health_text(label: Seq<char>, r: HealthResponse) -> Seq<char> {
    joined(
        seq![label + ": "@ + r.status@] + r.checks@.map_values(|c: HealthCheckDto| check_line(c)),
        "\n"@,
    )
}

pub fn render_health(label: &str, response: &HealthResponse) -> (r: String)
    ensures
        r@ == health_text(label@, *response),
{
    let mut head = String::from_str(label);
    push_str(&mut head, ": ");
    push_str(&mut head, response.status.as_str());
    let mut lines: Vec<String> = Vec::new();
    lines.push(head);
    let ghost checks = response.checks@.map_values(|c: HealthCheckDto| check_line(c));
    let mut i: usize = 0;
    while i < response.checks.len()
        invariant
            i <= response.checks@.len(),
            checks == response.checks@.map_values(|c: HealthCheckDto| check_line(c)),
            lines@.len() == i + 1,
            lines@[0]@ == label@ + ": "@ + response.status@,
            forall|k: int| 0 <= k < i ==> (#[trigger] lines@[k + 1])@ == checks[k],
        decreases response.checks@.len() - i,
    {
        let c = &response.checks[i];
        let mut line = String::from_str("- ");
        push_str(&mut line, c.name.as_str());
        push_str(&mut line, ": ");
        push_str(&mut line, c.status.as_str());
        push_str(&mut line, " - ");
        push_str(&mut line, c.detail.as_str());
        lines.push(line);
        assert(lines@[i + 1]@ == checks[i as int]);
        i = i + 1;
    }
    let r = join_strings(&lines, "\n");
    let ghost expected = seq![label@ + ": "@ + response.status@] + checks;
    let ghost views = lines@.map_values(|p: String| p@);
    assert(views =~= expected) by {
        assert forall|k: int| 0 <= k < expected.len() implies #[trigger] views[k] == expected[k] by {
            if k > 0 {
                assert(lines@[(k - 1) + 1]@ == checks[k - 1]);
            }
        }
    }
    r
}

/// The manifest line of a route.
pub open spec fn http_route_line(r: HttpRoute) -> Seq<char> {
    r.method@ + " "@ + r.path@ + " - "@ + r.purpose@
}

pub fn render_manifest(routes: &Vec<HttpRoute>) -> (r: String)
    ensures
        r@ == joined(routes@.map_values(|x: HttpRoute| http_route_line(x)), "\n"@),
{
    let ghost expected = routes@.map_values(|x: HttpRoute| http_route_line(x));
    let mut lines: Vec<String> = Vec::new();
    let mut i: usize = 0;
    while i < routes.len()
        invariant
            i <= routes@.len(),
            expected == routes@.map_values(|x: HttpRoute| http_route_line(x)),
            lines@.len() == i,
            forall|k: int| 0 <= k < i ==> (#[trigger] lines@[k])@ == expected[k],
        decreases routes@.len() - i,
    {
        let route = &routes[i];
        let mut line = String::from_str(route.method.as_str());
        push_str(&mut line, " ");
        push_str(&mut line, route.path.as_str());
        push_str(&mut line, " - ");
        push_str(&mut line, route.purpose.as_str());
        lines.push(line);
        i = i + 1;
    }
    let r = join_strings(&lines, "\n");
    let ghost views = lines@.map_values(|p: String| p@);
    assert(views =~= expected);
    r
}

/// The number of non-empty lines of a text, as `str::lines` splits it.
pub open spec fn nonempty_lines(s: Seq<char>) -> nat
    decreases s.len(),
{
    if s.len() == 0 {
        0
    } else {
        let i = first_index_of(s, '\n');
        if i < 0 {
            1
        } else {
            let l = s.subrange(0, i);
            let l2 = if l.len() > 0 && l.last() == '\r' { l.drop_last() } else { l };
            proof {
                crate::client::lemma_first_index_range(s, '\n');
            }
            (if l2.len() > 0 { 1nat } else { 0nat }) + nonempty_lines(s.skip(i + 1))
        }
    }
}

/// Counts the non-empty lines of a text.
pub fn count_nonempty_lines(s: &str) -> (r: usize)
    ensures
        r as nat == nonempty_lines(s@),
{
    let n = s.unicode_len();
    let mut start: usize = 0;
    let mut count: usize = 0;
    assert(s@.skip(0) == s@);
    while start < n
        invariant
            n == s@.len(),
            start <= n,
            count <= start,
            count + nonempty_lines(s@.skip(start as int)) == nonempty_lines(s@),
        decreases n - start,
    {
        let mut j: usize = start;
        while j < n && s.get_char(j) != '\n'
            invariant
                n == s@.len(),
                start <= j <= n,
                forall|k: int| start <= k < j ==> s@[k] != '\n',
            decreases n - j,
        {
            j = j + 1;
        }
        let ghost rest = s@.skip(start as int);
        proof {
            assert forall|k: int| 0 <= k < j - start implies rest[k] != '\n' by {
                assert(rest[k] == s@[k + start]);
            }
            if j < n {
                assert(rest[j - start] == s@[j as int]);
            }
            crate::client::lemma_first_index(rest, '\n', j - start);
        }
        if j == n {
            count = count + 1;
            start = n;
            assert(s@.skip(n as int).len() == 0);
        } else {
            let mut end = j;
            if end > start && s.get_char(end - 1) == '\r' {
                end = end - 1;
            }
            proof {
                let l = rest.subrange(0, j - start);
                if l.len() > 0 && l.last() == '\r' {
                    assert(l.drop_last().len() == end - start);
                } else {
                    assert(l.len() == end - start);
                }
                assert(rest.skip(j - start + 1) == s@.skip(j + 1));
            }
            if end > start {
                count = count + 1;
            }
            start = j + 1;
        }
    }
    count
}

pub open spec fn doctor_text(health: HealthResponse, ready: HealthResponse, metrics: Seq<char>) -> Seq<
    char,
> {
    "doctor: api reachable\nhealth: "@ + health.status@ + "\nready: "@ + ready.status@
        + "\nmetrics_lines: "@ + decimal(nonempty_lines(metrics))
}

pub fn render_doctor(health: &HealthResponse, ready: &HealthResponse, metrics: &str) -> (r: String)
    ensures
        r@ == doctor_text(*health, *ready, metrics@),
{
    let lines = count_nonempty_lines(metrics);
    let mut s = String::from_str("doctor: api reachable\nhealth: ");
    push_str(&mut s, health.status.as_str());
    push_str(&mut s, "\nready: ");
    push_str(&mut s, ready.status.as_str());
    push_str(&mut s, "\nmetrics_lines: ");
    push_str(&mut s, decimal_text(lines as u64).as_str());
    s
}

} // verus!
