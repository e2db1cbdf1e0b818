//! The connectivity probe: the initialize handshake shared by both
//! transports, and the verdicts drawn from what a remote endpoint answered
//! or from the state of a spawned local process after the grace period.
use crate::json::{find_member, json_object_members, json_string_value, lookup, object_members, string_value};
use crate::registry::{copy_pairs, copy_strings, Transport};
use crate::text::{
    chars_of, decimal, decimal_spec, find_last, lines, lines_spec, push_all, same_text,
    starts_with, starts_with_spec, string_of_range, strings_view, trim, trim_spec,
};
use vstd::prelude::*;

verus! {

/// The JSON-RPC `initialize` request sent to a server.
pub open spec fn initialize_spec() -> Seq<char> {
    "{\"jsonrpc\":\"2.0\",\"id\":1,\"method\":\"initialize\",\"params\":{\"protocolVersion\":\"2024-11-05\",\"capabilities\":{},\"clientInfo\":{\"name\":\"test\",\"version\":\"1.0\"}}}"@
}

pub fn initialize_request() -> (r: String)
    ensures
        r@ == initialize_spec(),
{
    "{\"jsonrpc\":\"2.0\",\"id\":1,\"method\":\"initialize\",\"params\":{\"protocolVersion\":\"2024-11-05\",\"capabilities\":{},\"clientInfo\":{\"name\":\"test\",\"version\":\"1.0\"}}}".to_string()
}

/// The request framed for a local server's standard input: a
/// `Content-Length` header with the request's length, a blank line, the
/// request, a line feed.
pub open spec fn stdio_frame_spec() -> Seq<char> {
    "Content-Length: "@ + decimal_spec(initialize_spec().len()) + "\r\n\r\n"@ + initialize_spec()
        + "\n"@
}

pub fn stdio_frame() -> (r: String)
    ensures
        r@ == stdio_frame_spec(),
{
    let msg = initialize_request();
    let n = msg.as_str().unicode_len();
    let mut r = "Content-Length: ".to_string();
    let len_text = decimal(n as u64);
    push_all(&mut r, len_text.as_str());
    push_all(&mut r, "\r\n\r\n");
    push_all(&mut r, msg.as_str());
    push_all(&mut r, "\n");
    r
}

/// The outcome of a probe.
pub enum ProbeResult {
    /// The server answered; its name where it gave one, and how it answered.
    Reachable { server_name: Option<String>, detail: String },
    /// The server did not answer as expected; why.
    Unreachable { reason: String },
}

pub open spec fn opt_view(o: Option<String>) -> Option<Seq<char>> {
    match o {
        Some(s) => Some(s@),
        None => None,
    }
}

/// What the probe does for a transport.
pub enum ProbePlan {
    /// POST `body` to `url`, accepting JSON and event streams.
    Http { url: String, body: String },
    /// Spawn `command` with `args` and `env`, write `input` to it, wait the
    /// grace period, then look at the process.
    Spawn { command: String, args: Vec<String>, env: Vec<(String, String)>, input: String },
}

/// The probe for a server: an HTTP handshake for a remote one, a spawned
/// process for a local one, both carrying the same request.
pub fn probe_plan(t: &Transport) -> (r: ProbePlan)
    ensures
        match (t, r) {
            (Transport::Remote { url }, ProbePlan::Http { url: u, body }) => u@ == url@ && body@
                == initialize_spec(),
            (
                Transport::Stdio { command, args, env },
                ProbePlan::Spawn { command: c, args: a, env: e, input },
            ) => c@ == command@ && strings_view(a@) == strings_view(args@)
                && crate::json::pairs_view(e@) == crate::json::pairs_view(env@) && input@
                == stdio_frame_spec(),
            _ => false,
        },
{
    match t {
        Transport::Remote { url } => ProbePlan::Http { url: url.clone(), body: initialize_request() },
        Transport::Stdio { command, args, env } => ProbePlan::Spawn {
            command: command.clone(),
            args: copy_strings(args),
            env: copy_pairs(env),
            input: stdio_frame(),
        },
    }
}

/// The transport to probe from the fields of a test request: `"url"` names
/// a remote endpoint at `target`; anything else a local command, `command`
/// where given and `target` otherwise, with `args` where given.
pub fn transport_for_test(
    server_type: &str,
    target: &str,
    command: Option<String>,
    args: Option<Vec<String>>,
) -> (r: Transport)
    ensures
        server_type@ == "url"@ ==> (r matches Transport::Remote { url } && url@ == target@),
        server_type@ != "url"@ ==> (r matches Transport::Stdio { command: c, args: a, env: e }
            && c@ == (match command {
            Some(x) => x@,
            None => target@,
        }) && strings_view(a@) == (match args {
            Some(v) => strings_view(v@),
            None => Seq::empty(),
        }) && e@.len() == 0),
{
    if same_text(server_type, "url") {
        Transport::Remote { url: target.to_string() }
    } else {
        let c = match command {
            Some(x) => x,
            None => target.to_string(),
        };
        let a = match args {
            Some(v) => v,
            None => Vec::new(),
        };
        assert(args is None ==> strings_view(a@) =~= Seq::<Seq<char>>::empty());
        Transport::Stdio { command: c, args: a, env: Vec::new() }
    }
}

// ---------------------------------------------------------------------------
// Remote endpoint
/// The status line and the body of an HTTP exchange written as the body,
/// a line feed and the status code; with no text at all the status reads `0`.
pub open spec fn response_parts(output: Seq<char>) -> (Seq<char>, Seq<char>) {
    let t = trim_spec(output);
    if t.len() == 0 {
        ("0"@, Seq::empty())
    } else {
        match crate::text::last_index_of(t, '\n') {
            Some(i) => (t.subrange(i + 1, t.len() as int), t.subrange(0, i)),
            None => (t, Seq::empty()),
        }
    }
}

/// Splits the output of an HTTP client into status code and body.
pub fn split_response(output: &str) -> (r: (String, String))
    ensures
        (r.0@, r.1@) == response_parts(output@),
{
    let t = trim(output);
    let cs = chars_of(t.as_str());
    if cs.len() == 0 {
        return ("0".to_string(), String::new());
    }
    proof {
        crate::text::lemma_last_index_of(cs@, '\n');
        assert(cs@.subrange(0, cs@.len() as int) == cs@);
    }
    match find_last(&cs, cs.len(), '\n') {
        Some(i) => (string_of_range(&cs, i + 1, cs.len()), string_of_range(&cs, 0, i)),
        None => (t, String::new()),
    }
}

/// The name at `/result/serverInfo/name` of the JSON object in `text`;
/// `unknown` where that member holds no string.
pub open spec fn server_name_of(text: Seq<char>) -> Option<Seq<char>> {
    match json_object_members(text) {
        None => None,
        Some(top) => match lookup(top, "result"@) {
            None => None,
            Some(res) => match json_object_members(res) {
                None => None,
                Some(rm) => match lookup(rm, "serverInfo"@) {
                    None => None,
                    Some(info) => match json_object_members(info) {
                        None => None,
                        Some(im) => match lookup(im, "name"@) {
                            None => None,
                            Some(raw) => Some(
                                match json_string_value(raw) {
                                    Some(s) => s,
                                    None => "unknown"@,
                                },
                            ),
                        },
                    },
                },
            },
        },
    }
}

fn member_text(text: &str, key: &str) -> (r: Option<String>)
    ensures
        match r {
            Some(v) => json_object_members(text@) matches Some(m) && lookup(m, key@) == Some(v@),
            None => json_object_members(text@) is None || (json_object_members(text@) matches Some(
                m,
            ) && lookup(m, key@) is None),
        },
{
    match object_members(text) {
        Err(_) => None,
        Ok(m) => match find_member(&m, key) {
            None => None,
            Some(i) => Some(m[i].1.clone()),
        },
    }
}

/// Reads the server name that a JSON initialize answer carries.
pub fn server_name(text: &str) -> (r: Option<String>)
    ensures
        opt_view(r) == server_name_of(text@),
{
    let res = match member_text(text, "result") {
        None => return None,
        Some(x) => x,
    };
    let info = match member_text(res.as_str(), "serverInfo") {
        None => return None,
        Some(x) => x,
    };
    let raw = match member_text(info.as_str(), "name") {
        None => return None,
        Some(x) => x,
    };
    match string_value(raw.as_str()) {
        Some(s) => Some(s),
        None => Some("unknown".to_string()),
    }
}

/// `s` without any run of the prefix `p` at its start.
pub open spec fn strip_prefixes(s: Seq<char>, p: Seq<char>) -> Seq<char>
    decreases s.len(),
{
    if p.len() > 0 && starts_with_spec(s, p) {
        strip_prefixes(s.subrange(p.len() as int, s.len() as int), p)
    } else {
        s
    }
}

/// The payload of an event-stream `data:` line.
pub open spec fn event_data(line: Seq<char>) -> Seq<char> {
    trim_spec(strip_prefixes(line, "data:"@))
}

/// The server name carried by the first `data:` line that holds one.
pub open spec fn event_stream_name(ls: Seq<Seq<char>>) -> Option<Seq<char>>
    decreases ls.len(),
{
    if ls.len() == 0 {
        None
    } else if starts_with_spec(ls[0], "data:"@) && server_name_of(event_data(ls[0])) is Some {
        server_name_of(event_data(ls[0]))
    } else {
        event_stream_name(ls.drop_first())
    }
}

/// The server name an answer body reports: from the body read as JSON, else
/// from its event stream.
pub open spec fn reported_name(body: Seq<char>) -> Option<Seq<char>> {
    match server_name_of(body) {
        Some(n) => Some(n),
        None => event_stream_name(lines_spec(body)),
    }
}

fn data_payload(line: &Vec<char>) -> (r: String)
    ensures
        r@ == event_data(line@),
{
    let mut lo: usize = 0;
    let prefix = chars_of("data:");
    proof {
        reveal_strlit("data:");
        assert(line@.subrange(0, line@.len() as int) == line@);
    }
    while line.len() >= 5 && lo <= line.len() - 5 && line[lo] == 'd' && line[lo + 1] == 'a' && line[lo + 2] == 't'
        && line[lo + 3] == 'a' && line[lo + 4] == ':'
        invariant
            lo <= line@.len(),
            prefix@ == "data:"@,
            strip_prefixes(line@, "data:"@) == strip_prefixes(
                line@.subrange(lo as int, line@.len() as int),
                "data:"@,
            ),
        decreases line@.len() - lo,
    {
        let ghost rest = line@.subrange(lo as int, line@.len() as int);
        proof {
            reveal_strlit("data:");
        }
        assert(rest.subrange(0, 5) =~= "data:"@);
        assert(rest.subrange(5, rest.len() as int) =~= line@.subrange(lo + 5, line@.len() as int));
        lo += 5;
    }
    let ghost rest = line@.subrange(lo as int, line@.len() as int);
    proof {
        reveal_strlit("data:");
    }
    assert(!starts_with_spec(rest, "data:"@)) by {
        if starts_with_spec(rest, "data:"@) {
            assert(rest.subrange(0, 5)[0] == 'd');
            assert(rest.subrange(0, 5)[1] == 'a');
            assert(rest.subrange(0, 5)[2] == 't');
            assert(rest.subrange(0, 5)[3] == 'a');
            assert(rest.subrange(0, 5)[4] == ':');
        }
    }
    let s = string_of_range(line, lo, line.len());
    trim(s.as_str())
}

/// Reads the server name from an answer body.
pub fn answer_name(body: &str) -> (r: Option<String>)
    ensures
        opt_view(r) == reported_name(body@),
{
    if let Some(n) = server_name(body) {
        return Some(n);
    }
    let ls = lines(body);
    let ghost lv = strings_view(ls@);
    let mut i: usize = 0;
    assert(lv.subrange(0, lv.len() as int) == lv);
    while i < ls.len()
        invariant
            lv == strings_view(ls@),
            lv == lines_spec(body@),
            server_name_of(body@) is None,
            i <= ls@.len(),
            event_stream_name(lv) == event_stream_name(lv.subrange(i as int, lv.len() as int)),
        decreases ls@.len() - i,
    {
        let ghost rest = lv.subrange(i as int, lv.len() as int);
        assert(rest[0] == ls@[i as int]@);
        assert(rest.drop_first() == lv.subrange(i + 1, lv.len() as int));
        let cs = chars_of(ls[i].as_str());
        if starts_with(&cs, "data:") {
            let data = data_payload(&cs);
            if let Some(n) = server_name(data.as_str()) {
                return Some(n);
            }
        }
        i += 1;
    }
    None
}

/// The verdict on an HTTP answer: a 2xx status means reachable, with the
/// server name where the body reports one; any other status means unreachable.
pub fn classify_http(status: &str, body: &str) -> (r: ProbeResult)
    ensures
        starts_with_spec(status@, "2"@) ==> (r matches ProbeResult::Reachable { server_name, detail }
            && opt_view(server_name) == reported_name(body@) && detail@ == "HTTP "@ + status@),
        !starts_with_spec(status@, "2"@) ==> (r matches ProbeResult::Unreachable { reason }
            && reason@ == "Server returned HTTP "@ + status@),
{
    let cs = chars_of(status);
    if starts_with(&cs, "2") {
        let mut detail = "HTTP ".to_string();
        push_all(&mut detail, status);
        ProbeResult::Reachable { server_name: answer_name(body), detail }
    } else {
        let mut reason = "Server returned HTTP ".to_string();
        push_all(&mut reason, status);
        ProbeResult::Unreachable { reason }
    }
}

/// The verdict on the raw output of an HTTP client that wrote the body, a
/// line feed and the status code.
pub fn classify_http_output(output: &str) -> (r: ProbeResult)
    ensures
        ({
            let (status, body) = response_parts(output@);
            &&& starts_with_spec(status, "2"@) ==> (r matches ProbeResult::Reachable {
                server_name,
                detail,
            } && opt_view(server_name) == reported_name(body) && detail@ == "HTTP "@ + status)
            &&& !starts_with_spec(status, "2"@) ==> (r matches ProbeResult::Unreachable { reason }
                && reason@ == "Server returned HTTP "@ + status)
        }),
{
    let (status, body) = split_response(output);
    classify_http(status.as_str(), body.as_str())
}

// ---------------------------------------------------------------------------
// Local process
/// The state of a spawned server once the grace period is over.
pub enum ProcessState {
    /// It has ended: whether with success, its exit status as text, and
    /// what it wrote to standard error.
    Exited { success: bool, status: String, stderr: String },
    /// It is still running.
    Running,
    /// Its state could not be read; the cause.
    WaitFailed { message: String },
}

/// The verdict on a local server, and whether the process must be killed.
pub struct LocalVerdict {
    pub result: ProbeResult,
    pub kill: bool,
}

/// The arguments written one after another, separated by spaces.
pub open spec fn words_spec(args: Seq<Seq<char>>) -> Seq<char>
    decreases args.len(),
{
    if args.len() == 0 {
        Seq::empty()
    } else if args.len() == 1 {
        args[0]
    } else {
        words_spec(args.drop_last()) + " "@ + args.last()
    }
}

fn words(args: &Vec<String>) -> (r: String)
    ensures
        r@ == words_spec(strings_view(args@)),
{
    let ghost av = strings_view(args@);
    let mut r = String::new();
    let mut i: usize = 0;
    assert(av.subrange(0, 0) == Seq::<Seq<char>>::empty());
    while i < args.len()
        invariant
            av == strings_view(args@),
            i <= args@.len(),
            r@ == words_spec(av.subrange(0, i as int)),
        decreases args@.len() - i,
    {
        let ghost sub = av.subrange(0, i + 1);
        assert(sub.drop_last() == av.subrange(0, i as int));
        assert(sub.last() == args@[i as int]@);
        if i > 0 {
            push_all(&mut r, " ");
        }
        push_all(&mut r, args[i].as_str());
        i += 1;
    }
    assert(av.subrange(0, av.len() as int) == av);
    r
}

/// The command line as it is shown: the command, a space, the arguments.
pub open spec fn command_line_spec(command: Seq<char>, args: Seq<Seq<char>>) -> Seq<char> {
    command + " "@ + words_spec(args)
}

fn command_line(command: &str, args: &Vec<String>) -> (r: String)
    ensures
        r@ == command_line_spec(command@, strings_view(args@)),
{
    let mut r = command.to_string();
    push_all(&mut r, " ");
    let w = words(args);
    push_all(&mut r, w.as_str());
    r
}

/// The verdict on a local server after the grace period. A process that
/// ended with success, or that still runs, is reachable; one that ended
/// otherwise is unreachable with its standard error. Every process not yet
/// ended is to be killed.
pub fn classify_local(state: ProcessState, command: &str, args: &Vec<String>) -> (r: LocalVerdict)
    ensures
        match state {
            ProcessState::Exited { success: true, .. } => !r.kill && (r.result
                matches ProbeResult::Reachable { server_name: None, detail } && detail@
                == "process started and exited cleanly"@),
            ProcessState::Exited { success: false, status, stderr } => !r.kill && (r.result
                matches ProbeResult::Unreachable { reason } && reason@ == "Server exited with "@
                + status@ + "\n"@ + trim_spec(stderr@)),
            ProcessState::Running => r.kill && (r.result matches ProbeResult::Reachable {
                server_name: None,
                detail,
            } && detail@ == "process is running\nCommand: "@ + command_line_spec(
                command@,
                strings_view(args@),
            )),
            ProcessState::WaitFailed { message } => r.kill && (r.result
                matches ProbeResult::Unreachable { reason } && reason@ == "Failed to check process: "@
                + message@),
        },
{
    match state {
        ProcessState::Exited { success, status, stderr } => {
            if success {
                LocalVerdict {
                    result: ProbeResult::Reachable {
                        server_name: None,
                        detail: "process started and exited cleanly".to_string(),
                    },
                    kill: false,
                }
            } else {
                let mut reason = "Server exited with ".to_string();
                push_all(&mut reason, status.as_str());
                push_all(&mut reason, "\n");
                let e = trim(stderr.as_str());
                push_all(&mut reason, e.as_str());
                LocalVerdict { result: ProbeResult::Unreachable { reason }, kill: false }
            }
        },
        ProcessState::Running => {
            let mut detail = "process is running\nCommand: ".to_string();
            let c = command_line(command, args);
            push_all(&mut detail, c.as_str());
            LocalVerdict {
                result: ProbeResult::Reachable { server_name: None, detail },
                kill: true,
            }
        },
        ProcessState::WaitFailed { message } => {
            let mut reason = "Failed to check process: ".to_string();
            push_all(&mut reason, message.as_str());
            LocalVerdict { result: ProbeResult::Unreachable { reason }, kill: true }
        },
    }
}

/// The verdict when the server process could not be started: unreachable,
/// with the cause and the command line.
pub fn spawn_failure(cause: &str, command: &str, args: &Vec<String>) -> (r: ProbeResult)
    ensures
        r matches ProbeResult::Unreachable { reason } && reason@ == "Failed to start server: "@
            + cause@ + "\nCommand: "@ + command_line_spec(command@, strings_view(args@)),
{
    let mut reason = "Failed to start server: ".to_string();
    push_all(&mut reason, cause);
    push_all(&mut reason, "\nCommand: ");
    let c = command_line(command, args);
    push_all(&mut reason, c.as_str());
    ProbeResult::Unreachable { reason }
}

} // verus!
