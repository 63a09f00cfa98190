//! The management line protocol: requests, responses, and what the endpoint
//! decides for each request line.
use vstd::prelude::*;
use vstd::string::*;
use crate::text::{lemma_trim_plain, trim_range, trimmed, lemma_split_word, lemma_whole_word, push_char, after_token, chars_of, eq_lit, find_space, string_of, token, append_str};

verus! {

/// Log level commands.
pub enum LogLevel {
    /// Set debug log level.
    DebugLevel,
    /// Set trace log level.
    TraceLevel,
    /// Set a custom log specification.
    CustomLevel(String),
}

/// A management request.
pub enum Request {
    /// Reload the registry from the state directory.
    ReloadState,
    /// Set the log level.
    SetLogLevel(LogLevel),
    /// Restore the configured default log level.
    ResetLogLevel,
    /// Liveness probe.
    ServerStatus,
    /// Mint a new TLS leaf covering the current names.
    ReloadSsl,
}

/// A management response.
pub enum Response {
    /// `OK`
    Done,
    /// `OK: <message>`
    Message(String),
    /// `ERROR <message>`
    Error(String),
}

/// Mathematical form of a [`LogLevel`].
pub enum LogLevelModel {
    DebugLevel,
    TraceLevel,
    CustomLevel(Seq<char>),
}

/// Mathematical form of a [`Request`].
pub enum RequestModel {
    ReloadState,
    SetLogLevel(LogLevelModel),
    ResetLogLevel,
    ServerStatus,
    ReloadSsl,
}

/// Mathematical form of a [`Response`].
pub enum ResponseModel {
    Done,
    Message(Seq<char>),
    Error(Seq<char>),
}

impl View for LogLevel {
    type V = LogLevelModel;

    open spec fn view(&self) -> LogLevelModel {
        match self {
            LogLevel::DebugLevel => LogLevelModel::DebugLevel,
            LogLevel::TraceLevel => LogLevelModel::TraceLevel,
            LogLevel::CustomLevel(v) => LogLevelModel::CustomLevel(v@),
        }
    }
}

impl View for Request {
    type V = RequestModel;

    open spec fn view(&self) -> RequestModel {
        match self {
            Request::ReloadState => RequestModel::ReloadState,
            Request::SetLogLevel(l) => RequestModel::SetLogLevel(l@),
            Request::ResetLogLevel => RequestModel::ResetLogLevel,
            Request::ServerStatus => RequestModel::ServerStatus,
            Request::ReloadSsl => RequestModel::ReloadSsl,
        }
    }
}

impl View for Response {
    type V = ResponseModel;

    open spec fn view(&self) -> ResponseModel {
        match self {
            Response::Done => ResponseModel::Done,
            Response::Message(m) => ResponseModel::Message(m@),
            Response::Error(m) => ResponseModel::Error(m@),
        }
    }
}


/// What a request line means, or the error message for it. The line is split
/// at its first two spaces; what follows the second is one value.
pub open spec fn request_of(s: Seq<char>) -> Result<RequestModel, Seq<char>> {
    let head = token(s);
    if head == "Reload"@ {
        if after_token(s) is Some {
            Err("Reload doesn't take arguments"@)
        } else {
            Ok(RequestModel::ReloadState)
        }
    } else if head == "Log"@ {
        match after_token(s) {
            None => Err("Log requires command"@),
            Some(r) => {
                let word = token(r);
                if word == "reset"@ {
                    Ok(RequestModel::ResetLogLevel)
                } else if word == "debug"@ {
                    Ok(RequestModel::SetLogLevel(LogLevelModel::DebugLevel))
                } else if word == "trace"@ {
                    Ok(RequestModel::SetLogLevel(LogLevelModel::TraceLevel))
                } else if word == "custom"@ {
                    match after_token(r) {
                        Some(v) => Ok(RequestModel::SetLogLevel(LogLevelModel::CustomLevel(v))),
                        None => Err("custom log level requires value"@),
                    }
                } else {
                    Err("invalid log command: "@ + word)
                }
            },
        }
    } else if head == "Status"@ {
        Ok(RequestModel::ServerStatus)
    } else if head == "ReloadSsl"@ {
        Ok(RequestModel::ReloadSsl)
    } else {
        Err("invalid command: "@ + head)
    }
}

/// The line that carries a request.
pub open spec fn request_text(m: RequestModel) -> Seq<char> {
    match m {
        RequestModel::ReloadState => "Reload"@,
        RequestModel::SetLogLevel(LogLevelModel::DebugLevel) => "Log debug"@,
        RequestModel::SetLogLevel(LogLevelModel::TraceLevel) => "Log trace"@,
        RequestModel::SetLogLevel(LogLevelModel::CustomLevel(v)) => "Log custom "@ + v,
        RequestModel::ResetLogLevel => "Log reset"@,
        RequestModel::ServerStatus => "Status"@,
        RequestModel::ReloadSsl => "ReloadSsl"@,
    }
}

/// The line that carries a response.
pub open spec fn response_text(m: ResponseModel) -> Seq<char> {
    match m {
        ResponseModel::Done => "OK"@,
        ResponseModel::Message(t) => "OK: "@ + t,
        ResponseModel::Error(t) => "ERROR "@ + t,
    }
}

/// What a response line means, or the error message for it.
pub open spec fn response_of(s: Seq<char>) -> Result<ResponseModel, Seq<char>> {
    let head = trimmed(token(s));
    if head == "OK"@ {
        Ok(ResponseModel::Done)
    } else if head == "OK:"@ {
        match after_token(s) {
            Some(t) => Ok(ResponseModel::Message(t)),
            None => Err("bad response from server: OK: without message"@),
        }
    } else if head == "ERROR"@ {
        match after_token(s) {
            Some(t) => Ok(ResponseModel::Error(t)),
            None => Ok(ResponseModel::Error(Seq::empty())),
        }
    } else {
        Err("invalid response from server: "@ + s)
    }
}

/// The view of a parse result.
pub open spec fn result_view<T: View>(r: Result<T, String>) -> Result<T::V, Seq<char>> {
    match r {
        Ok(v) => Ok(v@),
        Err(e) => Err(e@),
    }
}

/// A string holding `a` followed by `b`.
fn joined(a: &str, b: &str) -> (r: String)
    ensures
        r@ == a@ + b@,
{
    let mut s = String::from_str(a);
    append_str(&mut s, b);
    s
}

impl Request {
    /// Parses one request line.
    pub fn parse(input: &str) -> (r: Result<Request, String>)
        ensures
            result_view(r) == request_of(input@),
    {
        let cs = chars_of(input);
        let n = cs.len();
        let e1 = find_space(&cs, 0);
        assert(cs@.skip(0) =~= cs@);
        assert(token(input@) =~= cs@.subrange(0, e1 as int));
        if e1 < n {
            assert(after_token(input@) == Some(cs@.subrange(e1 + 1, n as int)));
        }
        if eq_lit(&cs, 0, e1, "Reload") {
            if e1 < n {
                Err(String::from_str("Reload doesn't take arguments"))
            } else {
                Ok(Request::ReloadState)
            }
        } else if eq_lit(&cs, 0, e1, "Log") {
            if e1 >= n {
                return Err(String::from_str("Log requires command"));
            }
            let e2 = find_space(&cs, e1 + 1);
            let ghost r = cs@.subrange(e1 + 1, n as int);
            assert(cs@.skip(e1 + 1) =~= r);
            assert(token(r) =~= cs@.subrange(e1 + 1, e2 as int));
            if e2 < n {
                assert(after_token(r) == Some(cs@.subrange(e2 + 1, n as int))) by {
                    assert(r.skip(e2 - e1) =~= cs@.subrange(e2 + 1, n as int));
                }
            }
            if eq_lit(&cs, e1 + 1, e2, "reset") {
                Ok(Request::ResetLogLevel)
            } else if eq_lit(&cs, e1 + 1, e2, "debug") {
                Ok(Request::SetLogLevel(LogLevel::DebugLevel))
            } else if eq_lit(&cs, e1 + 1, e2, "trace") {
                Ok(Request::SetLogLevel(LogLevel::TraceLevel))
            } else if eq_lit(&cs, e1 + 1, e2, "custom") {
                if e2 < n {
                    Ok(Request::SetLogLevel(LogLevel::CustomLevel(string_of(&cs, e2 + 1, n))))
                } else {
                    Err(String::from_str("custom log level requires value"))
                }
            } else {
                let cmd = string_of(&cs, e1 + 1, e2);
                Err(joined("invalid log command: ", cmd.as_str()))
            }
        } else if eq_lit(&cs, 0, e1, "Status") {
            Ok(Request::ServerStatus)
        } else if eq_lit(&cs, 0, e1, "ReloadSsl") {
            Ok(Request::ReloadSsl)
        } else {
            let cmd = string_of(&cs, 0, e1);
            Err(joined("invalid command: ", cmd.as_str()))
        }
    }

    /// The line that carries this request.
    pub fn serialize(&self) -> (r: String)
        ensures
            r@ == request_text(self@),
    {
        match self {
            Request::ReloadState => String::from_str("Reload"),
            Request::SetLogLevel(level) => match level {
                LogLevel::DebugLevel => String::from_str("Log debug"),
                LogLevel::TraceLevel => String::from_str("Log trace"),
                LogLevel::CustomLevel(value) => joined("Log custom ", value.as_str()),
            },
            Request::ResetLogLevel => String::from_str("Log reset"),
            Request::ServerStatus => String::from_str("Status"),
            Request::ReloadSsl => String::from_str("ReloadSsl"),
        }
    }
}

impl Response {
    /// Parses one response line.
    pub fn parse(input: &str) -> (r: Result<Response, String>)
        ensures
            result_view(r) == response_of(input@),
    {
        let cs = chars_of(input);
        let n = cs.len();
        let e1 = find_space(&cs, 0);
        assert(cs@.skip(0) =~= cs@);
        assert(token(input@) =~= cs@.subrange(0, e1 as int));
        if e1 < n {
            assert(after_token(input@) == Some(cs@.subrange(e1 + 1, n as int)));
        }
        let (ta, tb) = trim_range(&cs, 0, e1);
        if eq_lit(&cs, ta, tb, "OK") {
            Ok(Response::Done)
        } else if eq_lit(&cs, ta, tb, "OK:") {
            if e1 < n {
                Ok(Response::Message(string_of(&cs, e1 + 1, n)))
            } else {
                Err(String::from_str("bad response from server: OK: without message"))
            }
        } else if eq_lit(&cs, ta, tb, "ERROR") {
            if e1 < n {
                Ok(Response::Error(string_of(&cs, e1 + 1, n)))
            } else {
                Ok(Response::Error(String::new()))
            }
        } else {
            Err(joined("invalid response from server: ", input))
        }
    }

    /// The line that carries this response.
    pub fn serialize(&self) -> (r: String)
        ensures
            r@ == response_text(self@),
    {
        match self {
            Response::Done => String::from_str("OK"),
            Response::Message(msg) => joined("OK: ", msg.as_str()),
            Response::Error(m) => joined("ERROR ", m.as_str()),
        }
    }
}


/// Every request line that a client writes reads back as the same request.
pub proof fn lemma_request_round_trip(m: RequestModel)
    ensures
        request_of(request_text(m)) == Ok::<RequestModel, Seq<char>>(m),
{
    reveal_strlit("Reload");
    reveal_strlit("Log");
    reveal_strlit("reset");
    reveal_strlit("debug");
    reveal_strlit("trace");
    reveal_strlit("custom");
    reveal_strlit("Status");
    reveal_strlit("ReloadSsl");
    reveal_strlit("Log debug");
    reveal_strlit("Log trace");
    reveal_strlit("Log reset");
    reveal_strlit("Log custom ");
    let sp = seq![' '];
    match m {
        RequestModel::ReloadState => {
            lemma_whole_word("Reload"@);
        },
        RequestModel::SetLogLevel(LogLevelModel::DebugLevel) => {
            assert("Log debug"@ =~= "Log"@ + sp + "debug"@);
            lemma_split_word("Log"@, "debug"@);
            lemma_whole_word("debug"@);
        },
        RequestModel::SetLogLevel(LogLevelModel::TraceLevel) => {
            assert("Log trace"@ =~= "Log"@ + sp + "trace"@);
            lemma_split_word("Log"@, "trace"@);
            lemma_whole_word("trace"@);
        },
        RequestModel::SetLogLevel(LogLevelModel::CustomLevel(v)) => {
            assert("Log custom "@ + v =~= "Log"@ + sp + ("custom"@ + sp + v));
            lemma_split_word("Log"@, "custom"@ + sp + v);
            lemma_split_word("custom"@, v);
        },
        RequestModel::ResetLogLevel => {
            assert("Log reset"@ =~= "Log"@ + sp + "reset"@);
            lemma_split_word("Log"@, "reset"@);
            lemma_whole_word("reset"@);
        },
        RequestModel::ServerStatus => {
            lemma_whole_word("Status"@);
        },
        RequestModel::ReloadSsl => {
            lemma_whole_word("ReloadSsl"@);
        },
    }
}

/// Every response line that the endpoint writes reads back as the same
/// response on the client's side.
pub proof fn lemma_response_round_trip(m: ResponseModel)
    ensures
        response_of(response_text(m)) == Ok::<ResponseModel, Seq<char>>(m),
{
    reveal_strlit("OK");
    reveal_strlit("OK:");
    reveal_strlit("ERROR");
    reveal_strlit("OK: ");
    reveal_strlit("ERROR ");
    let sp = seq![' '];
    lemma_trim_plain("OK"@);
    lemma_trim_plain("OK:"@);
    lemma_trim_plain("ERROR"@);
    match m {
        ResponseModel::Done => {
            lemma_whole_word("OK"@);
        },
        ResponseModel::Message(t) => {
            assert("OK: "@ + t =~= "OK:"@ + sp + t);
            lemma_split_word("OK:"@, t);
        },
        ResponseModel::Error(t) => {
            assert("ERROR "@ + t =~= "ERROR"@ + sp + t);
            lemma_split_word("ERROR"@, t);
        },
    }
}

/// The log specification that a level command selects.
pub open spec fn level_spec(l: LogLevelModel) -> Seq<char> {
    match l {
        LogLevelModel::DebugLevel => "duwop=debug"@,
        LogLevelModel::TraceLevel => "duwop=trace"@,
        LogLevelModel::CustomLevel(v) => v,
    }
}

/// A log specification as the logger takes it.
#[verifier::external_type_specification]
#[verifier::external_body]
pub struct ExLogSpecification(flexi_logger::LogSpecification);

/// Whether the logger's parser accepts a specification text.
pub uninterp spec fn log_spec_accepted(s: Seq<char>) -> bool;

/// Relies on `flexi_logger::LogSpecification::parse`, which reads the text
/// alone: whether it accepts depends on the text only. Its error is kept as
/// text.
#[verifier::external_body]
fn parse_log_spec(spec: &str) -> (r: Result<flexi_logger::LogSpecification, String>)
    ensures
        r is Ok <==> log_spec_accepted(spec@),
{
    flexi_logger::LogSpecification::parse(spec).map_err(|e| e.to_string())
}

/// What the management endpoint must do for one request line.
pub enum Action {
    /// Rescan the state directory into the registry.
    Reload,
    /// Switch the logger to this specification, parsed from `text`.
    SetLogSpec { text: String, spec: flexi_logger::LogSpecification },
    /// Ask the HTTPS front-end for a new TLS leaf.
    NotifySsl,
    /// Nothing to do but answer.
    Reply(Response),
}

/// Mathematical form of an [`Action`].
pub enum ActionModel {
    Reload,
    SetLogSpec(Seq<char>),
    NotifySsl,
    Reply(ResponseModel),
}

impl View for Action {
    type V = ActionModel;

    open spec fn view(&self) -> ActionModel {
        match self {
            Action::Reload => ActionModel::Reload,
            Action::SetLogSpec { text, .. } => ActionModel::SetLogSpec(text@),
            Action::NotifySsl => ActionModel::NotifySsl,
            Action::Reply(r) => ActionModel::Reply(r@),
        }
    }
}

/// The action for a request line, given the default log specification,
/// before the logger's parser has seen a specification.
pub open spec fn decision(default_level: Seq<char>, line: Seq<char>) -> ActionModel {
    match request_of(line) {
        Err(e) => ActionModel::Reply(ResponseModel::Error(e)),
        Ok(RequestModel::ReloadState) => ActionModel::Reload,
        Ok(RequestModel::SetLogLevel(l)) => ActionModel::SetLogSpec(level_spec(l)),
        Ok(RequestModel::ResetLogLevel) => ActionModel::SetLogSpec(default_level),
        Ok(RequestModel::ServerStatus) => ActionModel::Reply(ResponseModel::Done),
        Ok(RequestModel::ReloadSsl) => ActionModel::NotifySsl,
    }
}

/// The message that answers a `ReloadSsl` request.
pub open spec fn ssl_reply() -> Seq<char> {
    "Ssl replacement initiated. Please check."@
}

/// The answer to a reload that ended with `outcome`.
pub open spec fn reload_reply(outcome: Result<(), Seq<char>>) -> ResponseModel {
    match outcome {
        Ok(_) => ResponseModel::Done,
        Err(e) => ResponseModel::Error("error reloading: "@ + e),
    }
}

/// The answer to a log level change that ended with `outcome`.
pub open spec fn log_reply(outcome: Result<(), Seq<char>>) -> ResponseModel {
    match outcome {
        Ok(_) => ResponseModel::Done,
        Err(e) => ResponseModel::Error("error setting log level: "@ + e),
    }
}

/// The response once an action was carried out, with `outcome` its result.
pub open spec fn completion(action: ActionModel, outcome: Result<(), Seq<char>>) -> ResponseModel {
    match action {
        ActionModel::Reload => reload_reply(outcome),
        ActionModel::SetLogSpec(_) => log_reply(outcome),
        ActionModel::NotifySsl => ResponseModel::Message(ssl_reply()),
        ActionModel::Reply(r) => r,
    }
}

/// The view of the result of an outside action.
pub open spec fn outcome_view(r: Result<(), String>) -> Result<(), Seq<char>> {
    match r {
        Ok(_) => Ok(()),
        Err(e) => Err(e@),
    }
}

/// The management endpoint: one session reads request lines and answers each
/// with one response line. It keeps no state between lines.
pub struct Server {
    /// The loopback port it listens on.
    pub port: u16,
    /// The log specification that `Log reset` restores.
    pub log_level: String,
}

impl Server {
    /// A management endpoint on `port` whose default log specification is
    /// `log_level`.
    pub fn new(port: u16, log_level: String) -> (r: Server)
        ensures
            r.port == port,
            r.log_level@ == log_level@,
    {
        Server { port, log_level }
    }

    /// Decides what a request line asks for. A log specification that the
    /// logger's parser refuses is answered with an error at once.
    pub fn decide(&self, line: &str) -> (r: Action)
        ensures
            match decision(self.log_level@, line@) {
                ActionModel::SetLogSpec(t) => if log_spec_accepted(t) {
                    r@ == ActionModel::SetLogSpec(t)
                } else {
                    exists|e: Seq<char>| r@ == ActionModel::Reply(log_reply(Err(e)))
                },
                other => r@ == other,
            },
    {
        match Request::parse(line) {
            Err(e) => Action::Reply(Response::Error(e)),
            Ok(Request::ReloadState) => Action::Reload,
            Ok(Request::SetLogLevel(level)) => match level {
                LogLevel::DebugLevel => self.log_action(String::from_str("duwop=debug")),
                LogLevel::TraceLevel => self.log_action(String::from_str("duwop=trace")),
                LogLevel::CustomLevel(value) => self.log_action(value),
            },
            Ok(Request::ResetLogLevel) => self.log_action(self.log_level.clone()),
            Ok(Request::ServerStatus) => Action::Reply(self.handle_status()),
            Ok(Request::ReloadSsl) => Action::NotifySsl,
        }
    }

    /// The action for a log specification text: switch to it where the
    /// logger's parser accepts it, else answer with the parser's error.
    pub fn log_action(&self, text: String) -> (r: Action)
        ensures
            log_spec_accepted(text@) ==> r@ == ActionModel::SetLogSpec(text@),
            !log_spec_accepted(text@) ==> exists|e: Seq<char>| r@ == ActionModel::Reply(log_reply(Err(e))),
    {
        match parse_log_spec(text.as_str()) {
            Ok(spec) => Action::SetLogSpec { text, spec },
            Err(e) => Action::Reply(self.handle_set_log_level(Err(e))),
        }
    }

    /// The answer to a reload, given whether the reload succeeded.
    pub fn handle_reload_state(&self, outcome: Result<(), String>) -> (r: Response)
        ensures
            r@ == reload_reply(outcome_view(outcome)),
    {
        match outcome {
            Ok(()) => Response::Done,
            Err(e) => Response::Error(joined("error reloading: ", e.as_str())),
        }
    }

    /// The answer to a `ReloadSsl` request once the notification was queued.
    pub fn handle_reload_ssl(&self) -> (r: Response)
        ensures
            r@ == ResponseModel::Message(ssl_reply()),
    {
        Response::Message(String::from_str("Ssl replacement initiated. Please check."))
    }

    /// The answer to a log level change, given whether the logger took the
    /// specification.
    pub fn handle_set_log_level(&self, outcome: Result<(), String>) -> (r: Response)
        ensures
            r@ == log_reply(outcome_view(outcome)),
    {
        match outcome {
            Ok(()) => Response::Done,
            Err(e) => Response::Error(joined("error setting log level: ", e.as_str())),
        }
    }

    /// The answer to a status request.
    pub fn handle_status(&self) -> (r: Response)
        ensures
            r@ == ResponseModel::Done,
    {
        Response::Done
    }

    /// The response to an action that was carried out with `outcome`.
    pub fn complete(&self, action: Action, outcome: Result<(), String>) -> (r: Response)
        ensures
            r@ == completion(action@, outcome_view(outcome)),
    {
        match action {
            Action::Reload => self.handle_reload_state(outcome),
            Action::SetLogSpec { .. } => self.handle_set_log_level(outcome),
            Action::NotifySsl => self.handle_reload_ssl(),
            Action::Reply(r) => r,
        }
    }

    /// The line written back for a response, newline included.
    pub fn response_line(response: &Response) -> (r: String)
        ensures
            r@ == response_text(response@).push('\n'),
    {
        let mut s = response.serialize();
        push_char(&mut s, '\n');
        s
    }
}

} // verus!
