//! The replies of the server.

use crate::codex::scan::{Read, ReadView};
use crate::codex::thread::ThreadDto;
use crate::domain::{result_view, VaultError, VaultErrorView};
use crate::ordered::TextSet;
use crate::outside::{
    integer_of_json, json_integer, json_member, json_problem, json_string, json_unsigned,
    member_of_json, problem_of_json, string_of_json, unsigned_of_json,
};
use crate::text::same;
use vstd::prelude::*;
use vstd::string::*;

verus! {

broadcast use vstd::group_vstd_default;

/// The error of a reply.
#[derive(Debug, PartialEq, Eq)]
pub struct ReplyError {
    pub code: Option<i64>,
    pub message: Option<String>,
}

#[verifier::ext_equal]
pub struct ReplyErrorView {
    pub code: Option<i64>,
    pub message: Option<Seq<char>>,
}

impl DeepView for ReplyError {
    type V = ReplyErrorView;

    open spec fn deep_view(&self) -> ReplyErrorView {
        ReplyErrorView { code: self.code, message: self.message.deep_view() }
    }
}

/// What is read from a message of the server.
#[derive(Debug, PartialEq, Eq)]
pub struct Message {
    /// The server asks or tells something itself.
    pub names_method: bool,
    pub id: Option<u64>,
    pub error: Option<ReplyError>,
    /// The JSON text of the result.
    pub result: Option<String>,
}

#[verifier::ext_equal]
pub struct MessageView {
    pub names_method: bool,
    pub id: Option<u64>,
    pub error: Option<ReplyErrorView>,
    pub result: Option<Seq<char>>,
}

impl DeepView for Message {
    type V = MessageView;

    open spec fn deep_view(&self) -> MessageView {
        MessageView {
            names_method: self.names_method,
            id: self.id,
            error: self.error.deep_view(),
            result: self.result.deep_view(),
        }
    }
}

/// What is read from a message that is JSON.
pub open spec fn message_of(text: Seq<char>) -> MessageView {
    MessageView {
        names_method: json_member(text, "method"@) is Some,
        id: match json_member(text, "id"@) {
            Some(id) => json_unsigned(id),
            None => None,
        },
        error: match json_member(text, "error"@) {
            Some(error) => Some(
                ReplyErrorView {
                    code: match json_member(error, "code"@) {
                        Some(code) => json_integer(code),
                        None => None,
                    },
                    message: match json_member(error, "message"@) {
                        Some(message) => json_string(message),
                        None => None,
                    },
                },
            ),
            None => None,
        },
        result: json_member(text, "result"@),
    }
}

fn read_error(error: &str) -> (r: ReplyError)
    ensures
        r.deep_view() == (ReplyErrorView {
            code: match json_member(error@, "code"@) {
                Some(code) => json_integer(code),
                None => None,
            },
            message: match json_member(error@, "message"@) {
                Some(message) => json_string(message),
                None => None,
            },
        }),
{
    let code = match member_of_json(error, "code") {
        Some(code) => integer_of_json(code.as_str()),
        None => None,
    };
    let message = match member_of_json(error, "message") {
        Some(message) => string_of_json(message.as_str()),
        None => None,
    };
    ReplyError { code, message }
}

/// Reads a message; what is no JSON breaks the protocol.
pub fn read_message(text: &str) -> (r: Result<Message, VaultError>)
    ensures
        result_view(r) == match json_problem(text@) {
            Some(problem) => Err::<MessageView, VaultErrorView>(VaultErrorView::Protocol(problem)),
            None => Ok(message_of(text@)),
        },
{
    match problem_of_json(text) {
        Some(problem) => {
            return Err(VaultError::Protocol(problem));
        },
        None => {},
    }
    let names_method = member_of_json(text, "method").is_some();
    let id = match member_of_json(text, "id") {
        Some(id) => unsigned_of_json(id.as_str()),
        None => None,
    };
    let error = match member_of_json(text, "error") {
        Some(error) => Some(read_error(error.as_str())),
        None => None,
    };
    let result = member_of_json(text, "result");
    Ok(Message { names_method, id, error, result })
}

/// How a request went.
#[derive(Debug, PartialEq, Eq)]
pub enum RpcOutcome {
    /// The JSON text of the result.
    Success(String),
    Error(Option<i64>, String),
}

#[verifier::ext_equal]
pub enum RpcOutcomeView {
    Success(Seq<char>),
    Error(Option<i64>, Seq<char>),
}

impl DeepView for RpcOutcome {
    type V = RpcOutcomeView;

    open spec fn deep_view(&self) -> RpcOutcomeView {
        match self {
            RpcOutcome::Success(result) => RpcOutcomeView::Success(result@),
            RpcOutcome::Error(code, message) => RpcOutcomeView::Error(*code, message@),
        }
    }
}

/// A message answers the request with the id.
pub open spec fn answers(message: MessageView, id: u64) -> bool {
    !message.names_method && message.id == Some(id)
}

/// What the error of a reply says.
pub open spec fn error_text(error: ReplyErrorView) -> Seq<char> {
    match error.message {
        Some(message) => message,
        None => "unknown app-server error"@,
    }
}

/// What an answer to a request says.
pub open spec fn outcome_of(message: MessageView, method: Seq<char>) -> Result<
    RpcOutcomeView,
    VaultErrorView,
> {
    match message.error {
        Some(error) => Ok(RpcOutcomeView::Error(error.code, error_text(error))),
        None => match message.result {
            Some(result) => Ok(RpcOutcomeView::Success(result)),
            None => Err(VaultErrorView::Protocol(method + ": missing result"@)),
        },
    }
}

fn message_text(error: &ReplyError) -> (r: String)
    ensures
        r@ == error_text(error.deep_view()),
{
    match &error.message {
        Some(message) => message.clone(),
        None => "unknown app-server error".to_owned(),
    }
}

/// What a message says of a request; nothing where it does not answer it.
pub fn match_reply(message: &Message, id: u64, method: &str) -> (r: Option<
    Result<RpcOutcome, VaultError>,
>)
    ensures
        match r {
            None => !answers(message.deep_view(), id),
            Some(outcome) => answers(message.deep_view(), id) && result_view(outcome)
                == outcome_of(message.deep_view(), method@),
        },
{
    if message.names_method {
        return None;
    }
    match message.id {
        Some(found) => if found != id {
            return None;
        },
        None => {
            return None;
        },
    }
    match &message.error {
        Some(error) => Some(Ok(RpcOutcome::Error(error.code, message_text(error)))),
        None => match &message.result {
            Some(result) => Some(Ok(RpcOutcome::Success(result.clone()))),
            None => Some(
                Err(VaultError::Protocol(method.to_owned().concat(": missing result"))),
            ),
        },
    }
}

/// What a request gives where its error is no answer of interest.
pub open spec fn required(outcome: RpcOutcomeView, method: Seq<char>) -> Result<
    Seq<char>,
    VaultErrorView,
> {
    match outcome {
        RpcOutcomeView::Success(result) => Ok(result),
        RpcOutcomeView::Error(_, message) => Err(
            VaultErrorView::Protocol(method + ": "@ + message),
        ),
    }
}

/// The result of a request, or its error.
pub fn require_success(outcome: RpcOutcome, method: &str) -> (r: Result<String, VaultError>)
    ensures
        result_view(r) == required(outcome.deep_view(), method@),
{
    match outcome {
        RpcOutcome::Success(result) => Ok(result),
        RpcOutcome::Error(_, message) => Err(
            VaultError::Protocol(method.to_owned().concat(": ").concat(message.as_str())),
        ),
    }
}

/// A probe with an id that no thread has proves that the method exists where
/// the server refuses the request or its parameters. Any other answer, success
/// with it, proves nothing.
pub open spec fn proves_support(outcome: RpcOutcomeView) -> bool {
    outcome matches RpcOutcomeView::Error(Some(code), _) && (code == -32600 || code == -32602)
}

pub fn probe_establishes_support(outcome: &RpcOutcome) -> (r: bool)
    ensures
        r == proves_support(outcome.deep_view()),
{
    match outcome {
        RpcOutcome::Error(Some(code), _) => *code == -32600 || *code == -32602,
        _ => false,
    }
}

/// A thread read that waits for its answer.
#[derive(Debug, PartialEq, Eq)]
pub struct PendingRead {
    pub request_id: u64,
    pub thread_id: String,
}

#[verifier::ext_equal]
pub struct PendingReadView {
    pub request_id: u64,
    pub thread_id: Seq<char>,
}

impl DeepView for PendingRead {
    type V = PendingReadView;

    open spec fn deep_view(&self) -> PendingReadView {
        PendingReadView { request_id: self.request_id, thread_id: self.thread_id@ }
    }
}

/// What a message means to a batch of reads.
pub enum BatchStep {
    /// Nothing.
    Ignore,
    /// The thread could not be read.
    Settled(String, Read),
    /// The JSON text of a result for the thread has to be read.
    Parse(String, String),
    /// The batch is over.
    Broken(VaultError),
}

#[verifier::ext_equal]
pub enum BatchStepView {
    Ignore,
    Settled(Seq<char>, ReadView),
    Parse(Seq<char>, Seq<char>),
    Broken(VaultErrorView),
}

impl DeepView for BatchStep {
    type V = BatchStepView;

    open spec fn deep_view(&self) -> BatchStepView {
        match self {
            BatchStep::Ignore => BatchStepView::Ignore,
            BatchStep::Settled(id, read) => BatchStepView::Settled(id@, read.deep_view()),
            BatchStep::Parse(id, text) => BatchStepView::Parse(id@, text@),
            BatchStep::Broken(error) => BatchStepView::Broken(error.deep_view()),
        }
    }
}

/// The place of the pending read that a message answers.
pub open spec fn answered(pending: Seq<PendingReadView>, message: MessageView) -> Option<int>
    decreases pending.len(),
{
    if pending.len() == 0 {
        None
    } else {
        match answered(pending.drop_last(), message) {
            Some(at) => Some(at),
            None => if answers(message, pending.last().request_id) {
                Some(pending.len() - 1)
            } else {
                None
            },
        }
    }
}

/// What an answer says of a thread.
pub open spec fn batch_step(thread_id: Seq<char>, message: MessageView) -> BatchStepView {
    match message.error {
        Some(error) => BatchStepView::Settled(
            thread_id,
            ReadView::Failed(VaultErrorView::Protocol("thread/read: "@ + error_text(error))),
        ),
        None => match message.result {
            Some(result) => BatchStepView::Parse(thread_id, result),
            None => BatchStepView::Broken(
                VaultErrorView::Protocol("thread/read: missing result"@),
            ),
        },
    }
}

proof fn lemma_answered_first(pending: Seq<PendingReadView>, message: MessageView, i: int)
    requires
        0 <= i < pending.len(),
        answers(message, pending[i].request_id),
        forall|k: int| 0 <= k < i ==> !answers(message, (#[trigger] pending[k]).request_id),
    ensures
        answered(pending, message) == Some(i),
    decreases pending.len(),
{
    let head = pending.drop_last();
    if i < pending.len() - 1 {
        assert forall|k: int| 0 <= k < i implies !answers(
            message,
            (#[trigger] head[k]).request_id,
        ) by {
            assert(head[k] == pending[k]);
        }
        lemma_answered_first(head, message, i);
    } else {
        assert forall|k: int| 0 <= k < head.len() implies !answers(
            message,
            (#[trigger] head[k]).request_id,
        ) by {
            assert(head[k] == pending[k]);
        }
        lemma_none_answered(head, message);
    }
}

proof fn lemma_none_answered(pending: Seq<PendingReadView>, message: MessageView)
    requires
        forall|k: int|
            0 <= k < pending.len() ==> !answers(message, (#[trigger] pending[k]).request_id),
    ensures
        answered(pending, message) is None,
    decreases pending.len(),
{
    if pending.len() > 0 {
        let head = pending.drop_last();
        assert forall|k: int| 0 <= k < head.len() implies !answers(
            message,
            (#[trigger] head[k]).request_id,
        ) by {
            assert(head[k] == pending[k]);
        }
        lemma_none_answered(head, message);
        assert(!answers(message, pending[pending.len() - 1].request_id));
    }
}

/// Takes the pending read out that a message answers, and says what the message
/// means.
pub fn match_batch(pending: &mut Vec<PendingRead>, message: &Message) -> (r: BatchStep)
    ensures
        match answered(old(pending).deep_view(), message.deep_view()) {
            None => r.deep_view() == BatchStepView::Ignore && final(pending).deep_view() == old(
                pending,
            ).deep_view(),
            Some(at) => r.deep_view() == batch_step(
                old(pending).deep_view()[at].thread_id,
                message.deep_view(),
            ) && final(pending).deep_view() == old(pending).deep_view().remove(at),
        },
{
    let ghost start = pending.deep_view();
    let ghost view = message.deep_view();
    let mut i: usize = 0;
    while i < pending.len()
        invariant
            i <= pending@.len(),
            start == pending.deep_view(),
            start == old(pending).deep_view(),
            view == message.deep_view(),
            forall|k: int| 0 <= k < i ==> !answers(view, (#[trigger] start[k]).request_id),
        decreases pending.len() - i,
    {
        assert(start[i as int] == pending@[i as int].deep_view());
        let mine = match message.id {
            Some(id) => !message.names_method && id == pending[i].request_id,
            None => false,
        };
        if mine {
            proof {
                lemma_answered_first(start, view, i as int);
            }
            let read = pending.remove(i);
            assert(pending.deep_view() =~= start.remove(i as int));
            return match &message.error {
                Some(error) => BatchStep::Settled(
                    read.thread_id,
                    Read::Failed(
                        VaultError::Protocol(
                            "thread/read: ".to_owned().concat(message_text(error).as_str()),
                        ),
                    ),
                ),
                None => match &message.result {
                    Some(result) => BatchStep::Parse(read.thread_id, result.clone()),
                    None => BatchStep::Broken(
                        VaultError::Protocol("thread/read: missing result".to_owned()),
                    ),
                },
            };
        }
        i += 1;
    }
    proof {
        lemma_none_answered(start, view);
    }
    BatchStep::Ignore
}

/// A thread that was read; it must be the one that was asked for.
pub fn accept_read(thread_id: &str, thread: Result<ThreadDto, String>) -> (r: Read)
    ensures
        r.deep_view() == match result_view(thread) {
            Err(problem) => ReadView::Failed(VaultErrorView::Protocol(problem)),
            Ok(dto) => if dto.id == thread_id@ {
                ReadView::Found(dto)
            } else {
                ReadView::Failed(
                    VaultErrorView::Protocol(
                        "thread/read returned "@ + dto.id + " while hydrating "@ + thread_id@,
                    ),
                )
            },
        },
{
    match thread {
        Err(problem) => Read::Failed(VaultError::Protocol(problem)),
        Ok(dto) => if same(dto.id.as_str(), thread_id) {
            Read::Found(dto)
        } else {
            Read::Failed(
                VaultError::Protocol(
                    "thread/read returned ".to_owned().concat(dto.id.as_str()).concat(
                        " while hydrating ",
                    ).concat(thread_id),
                ),
            )
        },
    }
}

/// Takes the cursor of the next page. A cursor that came before breaks the
/// protocol, so that a listing ends.
pub fn next_page(seen: &mut TextSet, next: Option<String>) -> (r: Result<
    Option<String>,
    VaultError,
>)
    ensures
        match next {
            None => r matches Ok(None) && final(seen)@ == old(seen)@,
            Some(cursor) => final(seen)@ == old(seen)@.insert(cursor@) && if old(seen)@.contains(
                cursor@,
            ) {
                r matches Err(error) && error.deep_view() == VaultErrorView::Protocol(
                    "thread/list returned a repeated cursor"@,
                )
            } else {
                r matches Ok(Some(next)) && next@ == cursor@
            },
        },
{
    match next {
        None => Ok(None),
        Some(cursor) => if seen.insert(cursor.clone()) {
            Ok(Some(cursor))
        } else {
            Err(VaultError::Protocol("thread/list returned a repeated cursor".to_owned()))
        },
    }
}

/// Every kind of source that the server knows.
pub open spec fn all_source_kinds() -> Seq<Seq<char>> {
    seq![
        "cli"@,
        "vscode"@,
        "exec"@,
        "appServer"@,
        "subAgent"@,
        "subAgentReview"@,
        "subAgentCompact"@,
        "subAgentThreadSpawn"@,
        "subAgentOther"@,
        "unknown"@,
    ]
}

/// The kinds of source that a listing asks for: all of them below an ancestor,
/// or where all are wanted, else those of people.
pub fn source_kinds(below_ancestor: bool, all_sources: bool) -> (r: Vec<&'static str>)
    ensures
        r@.map_values(|kind: &'static str| kind@) == if below_ancestor || all_sources {
            all_source_kinds()
        } else {
            seq!["cli"@, "vscode"@]
        },
{
    let r = if below_ancestor || all_sources {
        vec![
            "cli",
            "vscode",
            "exec",
            "appServer",
            "subAgent",
            "subAgentReview",
            "subAgentCompact",
            "subAgentThreadSpawn",
            "subAgentOther",
            "unknown",
        ]
    } else {
        vec!["cli", "vscode"]
    };
    assert(r@.map_values(|kind: &'static str| kind@) =~= if below_ancestor || all_sources {
        all_source_kinds()
    } else {
        seq!["cli"@, "vscode"@]
    });
    r
}

} // verus!
