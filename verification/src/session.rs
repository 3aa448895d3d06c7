//! The frame of a session: lines of the protocol, and the greeting with which it begins.
use vstd::prelude::*;
use vstd::string::*;

use crate::daemon::{handles, shuts_down, CancelReason, Daemon, DaemonAction};
use crate::error::{
    failure, first_fault, lemma_all_passed, lemma_first_fault_at, lemma_no_fault, Fault,
    SandboxError,
};
use crate::identifier::{identifier_fault, is_identifier, validate_identifier};
use crate::protocol::{
    ClientInfo, ClientMessage, ErrorCategory, ProtocolError, ProtocolVersion, ServerMessage,
    MAX_CONTROL_MESSAGE_BYTES, PROTOCOL_MAJOR, PROTOCOL_MINOR,
};
use crate::string_map::StringMap;
use crate::text::{concat, concat3, decimal, decimal_text, texts};

verus! {

/// Whether a byte belongs to the end of a line.
pub open spec fn ends_line(b: u8) -> bool {
    b == 10 || b == 13
}

/// A line without its end.
pub open spec fn line_content(line: Seq<u8>) -> Seq<u8>
    decreases line.len(),
{
    if line.len() > 0 && ends_line(line.last()) {
        line_content(line.drop_last())
    } else {
        line
    }
}

/// Why a line is refused.
pub open spec fn line_fault(line: Seq<u8>) -> Option<Fault> {
    if line.len() == 0 {
        None
    } else if line.len() > MAX_CONTROL_MESSAGE_BYTES {
        Some(Fault::Protocol("control message exceeds 1 MiB"@))
    } else if line_content(line).len() == 0 {
        Some(Fault::Protocol("empty control message"@))
    } else {
        None
    }
}

/// The message on a line as it was read, with its end; nothing where the input has ended. A line
/// may not have been read for a reason.
pub fn read_control_line(line: Result<Vec<u8>, String>) -> (r: Result<
    Option<Vec<u8>>,
    SandboxError,
>)
    ensures
        failure(r) == match line {
            Ok(bytes) => line_fault(bytes@),
            Err(reason) => Some(Fault::Protocol(reason@)),
        },
        r matches Ok(message) ==> (line matches Ok(read) && match message {
            Some(bytes) => read@.len() > 0 && bytes@ == line_content(read@),
            None => read@.len() == 0,
        }),
{
    let mut bytes = match line {
        Ok(bytes) => bytes,
        Err(reason) => {
            return Err(SandboxError::Protocol(reason));
        },
    };
    let ghost whole = bytes@;
    if bytes.len() == 0 {
        return Ok(None);
    }
    if bytes.len() > MAX_CONTROL_MESSAGE_BYTES {
        return Err(SandboxError::protocol("control message exceeds 1 MiB"));
    }
    while bytes.len() > 0 && (bytes[bytes.len() - 1] == 10 || bytes[bytes.len() - 1] == 13)
        invariant
            line_content(whole) == line_content(bytes@),
        decreases bytes@.len(),
    {
        let ghost before = bytes@;
        let _ = bytes.pop();
        assert(bytes@ =~= before.drop_last());
    }
    if bytes.len() == 0 {
        return Err(SandboxError::protocol("empty control message"));
    }
    Ok(Some(bytes))
}

/// Whatever a message holds, as long as it does not end as a line does and fits, it is read back
/// from its line.
pub proof fn law_messages_are_read_back(message: Seq<u8>)
    requires
        0 < message.len() < MAX_CONTROL_MESSAGE_BYTES,
        !ends_line(message.last()),
    ensures
        line_fault(message.push(10u8)) is None,
        line_content(message.push(10u8)) == message,
{
    let line = message.push(10u8);
    assert(line.drop_last() =~= message);
    assert(line_content(line) == line_content(message));
}

/// A protocol error that belongs to no family of failures of the sandbox.
pub open spec fn is_protocol_error(
    event: ServerMessage,
    code: Seq<char>,
    message: Seq<char>,
) -> bool {
    &&& event matches ServerMessage::Error { request_id, execution_id, error }
    &&& request_id is None
    &&& execution_id is None
    &&& error.code@ == code
    &&& error.category == ErrorCategory::Protocol
    &&& !error.retryable
    &&& error.message@ == message
    &&& error.details@ == Map::<Seq<char>, String>::empty()
}

fn protocol_event(code: &str, message: String) -> (r: ServerMessage)
    ensures
        is_protocol_error(r, code@, message@),
{
    ServerMessage::Error {
        request_id: None,
        execution_id: None,
        error: ProtocolError {
            code: code.to_owned(),
            category: ErrorCategory::Protocol,
            retryable: false,
            message,
            details: StringMap::new(),
        },
    }
}

/// The answer to a line that is no message.
pub fn invalid_message(reason: &str) -> (r: ServerMessage)
    ensures
        is_protocol_error(
            r,
            "SANDBOX_PROTOCOL_INVALID_MESSAGE"@,
            "invalid control message: "@ + reason@,
        ),
{
    protocol_event(
        "SANDBOX_PROTOCOL_INVALID_MESSAGE",
        concat("invalid control message: ", reason),
    )
}

/// What becomes of a session after its first message.
#[derive(Debug)]
pub enum Greeting {
    /// The message was no greeting; the session ends.
    NotHello,
    /// Something in it cannot be an identifier; the session ends.
    Refused(SandboxError),
    /// The client speaks another version; it is told so, and the session ends.
    Mismatch(ServerMessage),
    /// The session goes on.
    Welcome(ServerMessage),
}

/// What a daemon with a backend can do.
pub open spec fn session_features(has_backend: bool) -> Seq<Seq<char>> {
    if has_backend {
        seq!["process.exec"@, "process.spawn"@, "network.deny"@, "filesystem.mounts"@]
    } else {
        Seq::empty()
    }
}

/// Whether the answer to a greeting names the version that is spoken, and repeats the nonce.
pub open spec fn is_welcome(
    event: ServerMessage,
    nonce: String,
    runtime_version: Seq<char>,
    platform: Seq<char>,
    has_backend: bool,
) -> bool {
    &&& event matches ServerMessage::HelloAck {
        protocol,
        runtime_version: version,
        platform: os,
        features,
        nonce: echoed,
    }
    &&& protocol.major == PROTOCOL_MAJOR
    &&& protocol.minor == PROTOCOL_MINOR
    &&& version@ == runtime_version
    &&& os@ == platform
    &&& texts(features@) == session_features(has_backend)
    &&& echoed == nonce
}

/// Why a greeting is refused.
pub open spec fn greeting_fault(client: ClientInfo, nonce: Seq<char>) -> Option<Fault> {
    first_fault(
        seq![
            identifier_fault("client name"@, client.name@),
            identifier_fault("client version"@, client.version@),
            identifier_fault("nonce"@, nonce),
        ],
    )
}

fn check_greeting(client: &ClientInfo, nonce: &str) -> (r: Result<(), SandboxError>)
    ensures
        failure(r) == greeting_fault(*client, nonce@),
{
    let ghost faults = seq![
        identifier_fault("client name"@, client.name@),
        identifier_fault("client version"@, client.version@),
        identifier_fault("nonce"@, nonce@),
    ];
    match validate_identifier("client name", &client.name) {
        Ok(()) => {},
        Err(error) => {
            proof {
                lemma_first_fault_at(faults, 0);
            }
            return Err(error);
        },
    }
    match validate_identifier("client version", &client.version) {
        Ok(()) => {},
        Err(error) => {
            proof {
                lemma_first_fault_at(faults, 1);
            }
            return Err(error);
        },
    }
    match validate_identifier("nonce", nonce) {
        Ok(()) => {},
        Err(error) => {
            proof {
                lemma_first_fault_at(faults, 2);
            }
            return Err(error);
        },
    }
    proof {
        lemma_no_fault(faults);
    }
    Ok(())
}

/// Whether this is what becomes of a session after this first message.
pub open spec fn is_greeting(
    message: ClientMessage,
    runtime_version: Seq<char>,
    platform: Seq<char>,
    has_backend: bool,
    greeting: Greeting,
) -> bool {
    match message {
        ClientMessage::Hello { protocol, client, nonce } => if greeting_fault(client, nonce@)
            is Some {
            greeting matches Greeting::Refused(e) && Some(e@) == greeting_fault(client, nonce@)
        } else if protocol.major != PROTOCOL_MAJOR {
            greeting matches Greeting::Mismatch(event) && is_protocol_error(
                event,
                "SANDBOX_PROTOCOL_VERSION_MISMATCH"@,
                "protocol major "@ + decimal(protocol.major as nat)
                    + " is unsupported; expected "@ + decimal(PROTOCOL_MAJOR as nat),
            )
        } else {
            greeting matches Greeting::Welcome(event) && is_welcome(
                event,
                nonce,
                runtime_version,
                platform,
                has_backend,
            )
        },
        _ => greeting is NotHello,
    }
}

/// Answers the first message of a session.
pub fn greet(message: ClientMessage, runtime_version: &str, platform: &str, has_backend: bool) -> (r:
    Greeting)
    ensures
        is_greeting(message, runtime_version@, platform@, has_backend, r),
{
    match message {
        ClientMessage::Hello { protocol, client, nonce } => {
            match check_greeting(&client, &nonce) {
                Ok(()) => {},
                Err(error) => {
                    return Greeting::Refused(error);
                },
            }
            if protocol.major != PROTOCOL_MAJOR {
                let message = concat(
                    &concat3(
                        "protocol major ",
                        &decimal_text(protocol.major as u64),
                        " is unsupported; expected ",
                    ),
                    &decimal_text(PROTOCOL_MAJOR as u64),
                );
                return Greeting::Mismatch(
                    protocol_event("SANDBOX_PROTOCOL_VERSION_MISMATCH", message),
                );
            }
            let features = if has_backend {
                vec![
                    "process.exec".to_owned(),
                    "process.spawn".to_owned(),
                    "network.deny".to_owned(),
                    "filesystem.mounts".to_owned(),
                ]
            } else {
                Vec::new()
            };
            assert(texts(features@) =~= session_features(has_backend));
            Greeting::Welcome(
                ServerMessage::HelloAck {
                    protocol: ProtocolVersion { major: PROTOCOL_MAJOR, minor: PROTOCOL_MINOR },
                    runtime_version: runtime_version.to_owned(),
                    platform: platform.to_owned(),
                    features,
                    nonce,
                },
            )
        },
        _ => Greeting::NotHello,
    }
}

/// What comes from the client next.
#[derive(Debug)]
pub enum SessionInput {
    /// The input has ended.
    End,
    /// A line that could not be read, or that is no line of the protocol.
    Broken(SandboxError),
    /// A line that is no message, and why.
    NotMessage(String),
    Message(ClientMessage),
}

/// How a session ends.
#[derive(Debug)]
pub enum SessionEnd {
    /// The client never said anything.
    Silent,
    /// The client asked for the end, or is gone; the daemon shuts down.
    Finished,
    /// The client did not keep to the protocol, in this way.
    Failed(String),
}

/// How far a session has come.
#[derive(Debug)]
pub enum SessionStage {
    /// The first message is awaited.
    Greeting,
    /// Messages are served.
    Serving,
    Ended(SessionEnd),
}

/// Whether a session has failed, in this way.
pub open spec fn has_failed(stage: SessionStage, reason: Seq<char>) -> bool {
    stage matches SessionStage::Ended(SessionEnd::Failed(text)) && text@ == reason
}

/// Whether a session, at a stage and with a daemon in some state, answers what comes from the
/// client with this action, and goes on at this stage with the daemon in this state.
pub open spec fn is_turn(
    stage: SessionStage,
    before: Daemon,
    input: SessionInput,
    runtime_version: Seq<char>,
    platform: Seq<char>,
    next: SessionStage,
    action: DaemonAction,
    after: Daemon,
) -> bool {
    match stage {
        SessionStage::Greeting => {
            &&& after == before
            &&& match input {
                SessionInput::End => next == SessionStage::Ended(SessionEnd::Silent) && action
                    == DaemonAction::Ignore,
                SessionInput::Broken(error) => has_failed(next, error@.message()) && action
                    == DaemonAction::Ignore,
                SessionInput::NotMessage(reason) => has_failed(next, reason@) && action
                    == DaemonAction::Ignore,
                SessionInput::Message(message) => exists|greeting: Greeting| #[trigger]
                    is_greeting(
                        message,
                        runtime_version,
                        platform,
                        before.backend is Some,
                        greeting,
                    ) && match greeting {
                        Greeting::NotHello => has_failed(
                            next,
                            "the first protocol message must be hello"@,
                        ) && action == DaemonAction::Ignore,
                        Greeting::Refused(error) => has_failed(next, error@.message()) && action
                            == DaemonAction::Ignore,
                        Greeting::Mismatch(event) => has_failed(
                            next,
                            "protocol major version mismatch"@,
                        ) && action == DaemonAction::Reply(event),
                        Greeting::Welcome(event) => next == SessionStage::Serving && action
                            == DaemonAction::Reply(event),
                    },
            }
        },
        SessionStage::Serving => match input {
            SessionInput::End => {
                &&& next == SessionStage::Ended(SessionEnd::Finished)
                &&& action matches DaemonAction::Shutdown { request_id, closedown } && request_id
                    is None && shuts_down(before, CancelReason::ClientClosed, closedown, after)
            },
            SessionInput::Broken(error) => after == before && has_failed(next, error@.message())
                && action == DaemonAction::Ignore,
            SessionInput::NotMessage(reason) => {
                &&& after == before
                &&& next == SessionStage::Serving
                &&& action matches DaemonAction::Reply(event) && is_protocol_error(
                    event,
                    "SANDBOX_PROTOCOL_INVALID_MESSAGE"@,
                    "invalid control message: "@ + reason@,
                )
            },
            SessionInput::Message(message) => {
                &&& handles(before, message, action, after)
                &&& next == if message is Shutdown {
                    SessionStage::Ended(SessionEnd::Finished)
                } else {
                    SessionStage::Serving
                }
            },
        },
        SessionStage::Ended(_) => after == before && next == stage && action
            == DaemonAction::Ignore,
    }
}

impl SessionStage {
    /// Takes what comes from the client: what is to be done about it, and how the session goes on.
    pub fn take(
        self,
        daemon: &mut Daemon,
        input: SessionInput,
        runtime_version: &str,
        platform: &str,
    ) -> (r: (SessionStage, DaemonAction))
        ensures
            is_turn(
                self,
                *old(daemon),
                input,
                runtime_version@,
                platform@,
                r.0,
                r.1,
                *final(daemon),
            ),
            old(daemon).wf() ==> final(daemon).wf(),
    {
        match self {
            SessionStage::Greeting => match input {
                SessionInput::End => (SessionStage::Ended(SessionEnd::Silent), DaemonAction::Ignore),
                SessionInput::Broken(error) => (
                    SessionStage::Ended(SessionEnd::Failed(error.message())),
                    DaemonAction::Ignore,
                ),
                SessionInput::NotMessage(reason) => (
                    SessionStage::Ended(SessionEnd::Failed(reason)),
                    DaemonAction::Ignore,
                ),
                SessionInput::Message(message) => {
                    let has_backend = daemon.backend.is_some();
                    match greet(message, runtime_version, platform, has_backend) {
                        Greeting::NotHello => (
                            SessionStage::Ended(
                                SessionEnd::Failed(
                                    "the first protocol message must be hello".to_owned(),
                                ),
                            ),
                            DaemonAction::Ignore,
                        ),
                        Greeting::Refused(error) => (
                            SessionStage::Ended(SessionEnd::Failed(error.message())),
                            DaemonAction::Ignore,
                        ),
                        Greeting::Mismatch(event) => (
                            SessionStage::Ended(
                                SessionEnd::Failed("protocol major version mismatch".to_owned()),
                            ),
                            DaemonAction::Reply(event),
                        ),
                        Greeting::Welcome(event) => (
                            SessionStage::Serving,
                            DaemonAction::Reply(event),
                        ),
                    }
                },
            },
            SessionStage::Serving => match input {
                SessionInput::End => {
                    let closedown = daemon.shutdown(CancelReason::ClientClosed);
                    (
                        SessionStage::Ended(SessionEnd::Finished),
                        DaemonAction::Shutdown { request_id: None, closedown },
                    )
                },
                SessionInput::Broken(error) => (
                    SessionStage::Ended(SessionEnd::Failed(error.message())),
                    DaemonAction::Ignore,
                ),
                SessionInput::NotMessage(reason) => (
                    SessionStage::Serving,
                    DaemonAction::Reply(invalid_message(&reason)),
                ),
                SessionInput::Message(message) => {
                    let last = match &message {
                        ClientMessage::Shutdown { .. } => true,
                        _ => false,
                    };
                    let action = daemon.receive(message);
                    if last {
                        (SessionStage::Ended(SessionEnd::Finished), action)
                    } else {
                        (SessionStage::Serving, action)
                    }
                },
            },
            SessionStage::Ended(end) => (SessionStage::Ended(end), DaemonAction::Ignore),
        }
    }
}

/// One turn of a session.
pub ghost struct Turn {
    pub stage: SessionStage,
    pub before: Daemon,
    pub input: SessionInput,
    pub next: SessionStage,
    pub action: DaemonAction,
    pub after: Daemon,
}

/// Whether these are the turns of a session from its beginning. Between two turns the daemon goes
/// on with its executions.
pub open spec fn is_session(
    turns: Seq<Turn>,
    runtime_version: Seq<char>,
    platform: Seq<char>,
) -> bool {
    &&& turns.len() > 0 ==> turns[0].stage == SessionStage::Greeting
    &&& forall|i: int|
        0 <= i < turns.len() ==> {
            let turn = #[trigger] turns[i];
            is_turn(
                turn.stage,
                turn.before,
                turn.input,
                runtime_version,
                platform,
                turn.next,
                turn.action,
                turn.after,
            )
        }
    &&& forall|i: int, j: int|
        0 <= i && j == i + 1 && j < turns.len() ==> (#[trigger] turns[i]).next == (
        #[trigger] turns[j]).stage
}

/// Whether something from the client ends a session that serves it.
pub open spec fn ends_session(input: SessionInput) -> bool {
    match input {
        SessionInput::End => true,
        SessionInput::Broken(_) => true,
        SessionInput::NotMessage(_) => false,
        SessionInput::Message(message) => message is Shutdown,
    }
}

/// A session begins with the answer to a greeting, and then serves every message. A line that is
/// no message is answered and changes nothing. The session goes on until the client asks for its
/// end, sends a line that is none, or is gone; after that nothing is done any more.
pub proof fn law_session_serves_until_its_end(
    turns: Seq<Turn>,
    runtime_version: Seq<char>,
    platform: Seq<char>,
    i: int,
)
    requires
        is_session(turns, runtime_version, platform),
        0 <= i < turns.len(),
    ensures
        i == 0 ==> (turns[i].next is Serving ==> (turns[i].action matches DaemonAction::Reply(
            event,
        ) && event is HelloAck)) && turns[i].after == turns[i].before,
        i > 0 ==> !(turns[i].stage is Greeting),
        turns[i].stage is Serving ==> (turns[i].next is Serving <==> !ends_session(turns[i].input)),
        turns[i].stage is Serving && turns[i].input is NotMessage ==> turns[i].after
            == turns[i].before && (turns[i].action matches DaemonAction::Reply(event) && event
            is Error),
        turns[i].stage is Ended ==> turns[i].action == DaemonAction::Ignore && turns[i].next
            == turns[i].stage && turns[i].after == turns[i].before,
    decreases i,
{
    if i > 0 {
        law_session_serves_until_its_end(turns, runtime_version, platform, i - 1);
        assert(turns[i - 1].next == turns[i].stage);
    }
}

/// Whether the process that started the daemon can be the one that it names.
pub fn is_parent_pid(parent_pid: Option<u32>) -> (r: bool)
    ensures
        r == (parent_pid != Some(0u32)),
{
    match parent_pid {
        Some(pid) => pid != 0,
        None => true,
    }
}

/// What is cut off a line are only the bytes that end it, all of them behind the last that does not.
pub proof fn law_line_loses_its_end(line: Seq<u8>) -> (kept: int)
    ensures
        0 <= kept <= line.len(),
        line_content(line) == line.take(kept),
        forall|i: int| kept <= i < line.len() ==> (#[trigger] line[i]) == 10 || line[i] == 13,
        kept > 0 ==> line[kept - 1] != 10 && line[kept - 1] != 13,
    decreases line.len(),
{
    if line.len() > 0 && ends_line(line.last()) {
        let rest = line.drop_last();
        let kept = law_line_loses_its_end(rest);
        assert(rest.take(kept) =~= line.take(kept));
        assert forall|i: int| kept <= i < line.len() implies (#[trigger] line[i]) == 10 || line[i]
            == 13 by {
            if i < rest.len() {
                assert(rest[i] == line[i]);
            }
        }
        if kept > 0 {
            assert(rest[kept - 1] == line[kept - 1]);
        }
        kept
    } else {
        assert(line.take(line.len() as int) =~= line);
        line.len() as int
    }
}

/// A line is taken exactly where it has at most a mebibyte, with its end, and holds anything else
/// than that; or where the input has ended, and there is none.
pub proof fn law_accepted_lines(line: Seq<u8>)
    ensures
        line_fault(line) is None <==> line.len() == 0 || line.len() <= 1_048_576 && exists|i: int|
            0 <= i < line.len() && (#[trigger] line[i]) != 10 && line[i] != 13,
{
    let kept = law_line_loses_its_end(line);
    if kept > 0 {
        assert(line[kept - 1] != 10 && line[kept - 1] != 13);
    }
}

/// A session is served exactly where its first message is a greeting with identifiers that can be
/// ones, and of the right major version; the answer then repeats the nonce, and names what the
/// daemon speaks and can do.
pub proof fn law_greeted_sessions(
    message: ClientMessage,
    runtime_version: Seq<char>,
    platform: Seq<char>,
    has_backend: bool,
    greeting: Greeting,
)
    requires
        is_greeting(message, runtime_version, platform, has_backend, greeting),
    ensures
        greeting is Welcome <==> (message matches ClientMessage::Hello { protocol, client, nonce }
            && protocol.major == 1 && is_identifier(client.name@) && is_identifier(client.version@)
            && is_identifier(nonce@)),
        greeting is NotHello <==> !(message is Hello),
        greeting is Refused <==> (message matches ClientMessage::Hello { client, nonce, .. } && !(
        is_identifier(client.name@) && is_identifier(client.version@) && is_identifier(nonce@))),
        greeting matches Greeting::Welcome(event) ==> (event matches ServerMessage::HelloAck {
            protocol,
            runtime_version: version,
            platform: os,
            features,
            nonce,
        } && protocol.major == 1 && protocol.minor == 2 && version@ == runtime_version && os@
            == platform && nonce == message->Hello_nonce && (features@.len() > 0
            <==> has_backend)),
        greeting matches Greeting::Mismatch(event) ==> (event matches ServerMessage::Error {
            request_id,
            execution_id,
            error,
        } && request_id is None && execution_id is None && error.code@
            == "SANDBOX_PROTOCOL_VERSION_MISMATCH"@ && error.category == ErrorCategory::Protocol
            && !error.retryable && error.details@ == Map::<Seq<char>, String>::empty()),
{
    if let ClientMessage::Hello { client, nonce, .. } = message {
        let faults = seq![
            identifier_fault("client name"@, client.name@),
            identifier_fault("client version"@, client.version@),
            identifier_fault("nonce"@, nonce@),
        ];
        if first_fault(faults) is None {
            lemma_all_passed(faults, 0);
            lemma_all_passed(faults, 1);
            lemma_all_passed(faults, 2);
        } else if is_identifier(client.name@) && is_identifier(client.version@) && is_identifier(
            nonce@,
        ) {
            lemma_no_fault(faults);
        }
    }
    if let Greeting::Welcome(ServerMessage::HelloAck { features, .. }) = greeting {
        assert(texts(features@).len() == features@.len());
    }
}

/// Whether a session is served or has ended, the client's going away shuts the daemon down, with
/// every execution stopped for it; a broken line does not touch the daemon; and every message is
/// handed to the daemon, which alone decides what is done about it.
pub proof fn law_served_inputs(
    stage: SessionStage,
    before: Daemon,
    input: SessionInput,
    runtime_version: Seq<char>,
    platform: Seq<char>,
    next: SessionStage,
    action: DaemonAction,
    after: Daemon,
)
    requires
        is_turn(stage, before, input, runtime_version, platform, next, action, after),
        stage is Serving,
    ensures
        input is End ==> next == SessionStage::Ended(SessionEnd::Finished) && (
        action matches DaemonAction::Shutdown { request_id, closedown } && request_id is None
            && shuts_down(before, CancelReason::ClientClosed, closedown, after)),
        input is Broken ==> after == before && action == DaemonAction::Ignore && (
        next matches SessionStage::Ended(SessionEnd::Failed(_))),
        input matches SessionInput::Message(message) ==> handles(before, message, action, after) && (
        next == SessionStage::Serving <==> !(message is Shutdown)),
        input matches SessionInput::NotMessage(reason) ==> (action matches DaemonAction::Reply(
            ServerMessage::Error { error, .. },
        ) && error.code@ == "SANDBOX_PROTOCOL_INVALID_MESSAGE"@ && reason@.is_suffix_of(
            error.message@,
        )),
{
    if let SessionInput::NotMessage(reason) = input {
        let text = "invalid control message: "@ + reason@;
        assert(text.subrange(text.len() - reason@.len(), text.len() as int) =~= reason@);
    }
}

/// Nothing is served before a session was greeted, and a first message that is not welcome ends it,
/// with the daemon as it was.
pub proof fn law_only_greeted_sessions_are_served(
    before: Daemon,
    input: SessionInput,
    runtime_version: Seq<char>,
    platform: Seq<char>,
    next: SessionStage,
    action: DaemonAction,
    after: Daemon,
)
    requires
        is_turn(
            SessionStage::Greeting,
            before,
            input,
            runtime_version,
            platform,
            next,
            action,
            after,
        ),
    ensures
        after == before,
        next is Serving <==> (input matches SessionInput::Message(
            ClientMessage::Hello { protocol, client, nonce },
        ) && protocol.major == 1 && is_identifier(client.name@) && is_identifier(client.version@)
            && is_identifier(nonce@)),
        next is Serving || next is Ended,
        input is End ==> next == SessionStage::Ended(SessionEnd::Silent),
        !(input is End) && !(next is Serving) ==> (next matches SessionStage::Ended(
            SessionEnd::Failed(_),
        )),
{
    if let SessionInput::Message(message) = input {
        let greeting = choose|greeting: Greeting| #[trigger]
            is_greeting(message, runtime_version, platform, before.backend is Some, greeting)
                && match greeting {
                Greeting::NotHello => has_failed(next, "the first protocol message must be hello"@)
                    && action == DaemonAction::Ignore,
                Greeting::Refused(error) => has_failed(next, error@.message()) && action
                    == DaemonAction::Ignore,
                Greeting::Mismatch(event) => has_failed(next, "protocol major version mismatch"@)
                    && action == DaemonAction::Reply(event),
                Greeting::Welcome(event) => next == SessionStage::Serving && action
                    == DaemonAction::Reply(event),
            };
        law_greeted_sessions(
            message,
            runtime_version,
            platform,
            before.backend is Some,
            greeting,
        );
    }
}

} // verus!
