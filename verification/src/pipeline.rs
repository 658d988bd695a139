//! The lines that go to a backend process and come from it.

use crate::backend::{BackendInstance, BackendView};
use crate::jsonrpc::JsonRpcResponse;
use crate::pending::{
    all_failed, answered_id, delivered, everyone_told, is_gone_answer, Delivery,
};
use crate::text::{
    concat, is_white, trim, trimmed, trimmed_end, trimmed_start, trimming_leaves_the_middle,
};
use vstd::prelude::*;

verus! {

/// The line that carries a message.
pub fn frame_message(message: &str) -> (res: String)
    ensures
        res@ == message@ + "\n"@,
{
    concat(message, "\n")
}

/// The message in a line, without the white space around it; `None` where the line is blank.
pub fn message_in_line(line: &str) -> (res: Option<String>)
    ensures
        match res {
            Some(message) => message@ == trimmed(line@) && message@.len() > 0,
            None => trimmed(line@).len() == 0,
        },
{
    let message = trim(line);
    if message.as_str().is_empty() {
        None
    } else {
        Some(message)
    }
}

/// What came of reading from a backend process.
pub enum ReaderEvent<P> {
    /// A line.
    Line(String),
    /// The answer in the line before.
    Parsed(JsonRpcResponse<P>),
    /// The line before holds no answer.
    NotParsed,
    /// The process prints no more, or cannot be read from.
    Ended,
}

/// What the reading task does next.
pub enum ReaderAction<T, P> {
    /// Read the next line.
    ReadOn,
    /// Look for an answer in this text.
    Parse(String),
    /// Hand on an answer, and read the next line.
    Answer(T, JsonRpcResponse<P>),
    /// Hand on these answers, and end.
    Stop(Vec<(T, JsonRpcResponse<P>)>),
}

/// `action` and `after` are what reading `event` from the backend `before` gives: blank lines and
/// lines without an answer are skipped, an answer goes to the request it is for, and at the end
/// every request still waiting is told that the backend is gone.
pub open spec fn reader_reacts<T, P>(
    before: BackendView<T>,
    event: ReaderEvent<P>,
    action: ReaderAction<T, P>,
    after: BackendView<T>,
) -> bool {
    match event {
        ReaderEvent::Line(line) => {
            &&& after == before
            &&& if trimmed(line@).len() == 0 {
                action is ReadOn
            } else {
                action matches ReaderAction::Parse(message) && message@ == trimmed(line@)
            }
        },
        ReaderEvent::Parsed(response) => {
            &&& after == (BackendView { pending: after.pending, ..before })
            &&& exists|delivery: Delivery<T, P>| #[trigger]
                delivered(before.pending, response, delivery, after.pending) && match delivery {
                    Delivery::To(reply, answer) => action == ReaderAction::Answer(reply, answer),
                    Delivery::WithoutId => action is ReadOn,
                    Delivery::Unknown(_) => action is ReadOn,
                }
        },
        ReaderEvent::NotParsed => after == before && action is ReadOn,
        ReaderEvent::Ended => {
            &&& after == (BackendView { pending: Map::empty(), ..before })
            &&& action matches ReaderAction::Stop(sent) && everyone_told(before.pending, sent@)
        },
    }
}

impl<T> BackendInstance<T> {
    /// Decides what the reading task does about what it read.
    pub fn reader_step<P>(&mut self, event: ReaderEvent<P>) -> (res: ReaderAction<T, P>)
        ensures
            old(self)@.well_formed() ==> final(self)@.well_formed(),
            reader_reacts(old(self)@, event, res, final(self)@),
    {
        match event {
            ReaderEvent::Line(line) => match message_in_line(line.as_str()) {
                Some(message) => ReaderAction::Parse(message),
                None => ReaderAction::ReadOn,
            },
            ReaderEvent::Parsed(response) => {
                let delivery = self.deliver_response(response);
                let action = match delivery {
                    Delivery::To(reply, answer) => ReaderAction::Answer(reply, answer),
                    Delivery::WithoutId => ReaderAction::ReadOn,
                    Delivery::Unknown(_) => ReaderAction::ReadOn,
                };
                proof {
                    assert(delivered(old(self)@.pending, response, delivery, self@.pending));
                    assert(reader_reacts(old(self)@, event, action, self@));
                }
                action
            },
            ReaderEvent::NotParsed => ReaderAction::ReadOn,
            ReaderEvent::Ended => {
                let sent: Vec<(T, JsonRpcResponse<P>)> = self.fail_all_pending();
                ReaderAction::Stop(sent)
            },
        }
    }
}

proof fn lemma_trimmed_start_push(s: Seq<char>, c: char)
    requires
        is_white(c),
    ensures
        trimmed_start(s.push(c)) == (if trimmed_start(s).len() == 0 {
            Seq::<char>::empty()
        } else {
            trimmed_start(s).push(c)
        }),
    decreases s.len(),
{
    let longer = s.push(c);
    if s.len() == 0 {
        assert(longer.drop_first() =~= Seq::empty());
        assert(trimmed_start(longer) == trimmed_start(longer.drop_first()));
        assert(trimmed_start(longer) =~= Seq::empty());
        assert(trimmed_start(s).len() == 0);
    } else {
        assert(longer[0] == s[0]);
        if is_white(s[0]) {
            assert(longer.drop_first() =~= s.drop_first().push(c));
            lemma_trimmed_start_push(s.drop_first(), c);
        }
    }
}

/// A message survives its line: reading the line that carries it gives the message back, without
/// the white space around it.
pub proof fn framed_message_reads_back(message: Seq<char>)
    ensures
        trimmed(message + "\n"@) == trimmed(message),
{
    reveal_strlit("\n");
    assert(message + "\n"@ =~= message.push('\n'));
    lemma_trimmed_start_push(message, '\n');
    let start = trimmed_start(message);
    if start.len() > 0 {
        assert(start.push('\n').drop_last() =~= start);
        assert(trimmed_end(start.push('\n')) == trimmed_end(start));
    } else {
        assert(start =~= Seq::empty());
    }
}

/// Every answer reaches the client that waits for it, whether it carries a result or an error: the
/// client gets it as the backend wrote it, under the client's own id. That request waits no longer,
/// and nothing else of the backend changes.
pub proof fn every_answer_is_handed_on<T, P>(
    backend: &mut BackendInstance<T>,
    response: JsonRpcResponse<P>,
    proxy_id: u64,
    action: ReaderAction<T, P>,
)
    requires
        call_ensures(
            BackendInstance::<T>::reader_step::<P>,
            (backend, ReaderEvent::Parsed(response)),
            action,
        ),
        response.id matches Some(id) && answered_id(id) == proxy_id,
        old(backend)@.pending.contains_key(proxy_id),
    ensures
        ({
            let request = old(backend)@.pending[proxy_id];
            action == ReaderAction::Answer(
                request.reply,
                JsonRpcResponse {
                    jsonrpc: response.jsonrpc,
                    id: request.client_id,
                    result: response.result,
                    error: response.error,
                },
            )
        }),
        final(backend)@ == (BackendView {
            pending: old(backend)@.pending.remove(proxy_id),
            ..old(backend)@
        }),
{
}

/// An answer without an id, or one that nobody waits for, is passed over and changes nothing; so
/// is a line without an answer.
pub proof fn answer_for_nobody_is_passed_over<T, P>(
    backend: &mut BackendInstance<T>,
    event: ReaderEvent<P>,
    action: ReaderAction<T, P>,
)
    requires
        call_ensures(BackendInstance::<T>::reader_step::<P>, (backend, event), action),
        event matches ReaderEvent::Parsed(response) ==> (response.id matches Some(id)
            ==> !old(backend)@.pending.contains_key(answered_id(id))),
        event is Parsed || event is NotParsed,
    ensures
        action is ReadOn,
        final(backend)@ == old(backend)@,
{
}

/// No request is dropped: one that waited before the reading task took a step and does not
/// afterwards has got its answer in that step.
pub proof fn no_waiting_request_is_dropped<T, P>(
    backend: &mut BackendInstance<T>,
    event: ReaderEvent<P>,
    action: ReaderAction<T, P>,
    proxy_id: u64,
)
    requires
        call_ensures(BackendInstance::<T>::reader_step::<P>, (backend, event), action),
        old(backend)@.pending.contains_key(proxy_id),
    ensures
        ({
            let request = old(backend)@.pending[proxy_id];
            if final(backend)@.pending.contains_key(proxy_id) {
                final(backend)@.pending[proxy_id] == request
            } else {
                match action {
                    ReaderAction::Answer(reply, answer) => reply == request.reply && answer.id
                        == request.client_id,
                    ReaderAction::Stop(sent) => exists|i: int|
                        0 <= i < sent@.len() && (#[trigger] sent@[i]).0 == request.reply
                            && sent@[i].1.id == request.client_id,
                    _ => false,
                }
            }
        }),
{
    if event is Ended {
        let sent = action->Stop_0@;
        let ids = choose|ids: Seq<u64>| #[trigger]
            all_failed(old(backend)@.pending, ids, sent);
        assert(ids.to_set().contains(proxy_id));
        let i = choose|i: int| 0 <= i < ids.len() && ids[i] == proxy_id;
        assert(sent[i].0 == old(backend)@.pending[proxy_id].reply);
    }
}

/// No request begins to wait, and none changes, while the reading task takes a step; the state of
/// the backend and of its process stays too.
pub proof fn reading_adds_nothing<T, P>(
    backend: &mut BackendInstance<T>,
    event: ReaderEvent<P>,
    action: ReaderAction<T, P>,
    proxy_id: u64,
)
    requires
        call_ensures(BackendInstance::<T>::reader_step::<P>, (backend, event), action),
    ensures
        final(backend)@.pending.contains_key(proxy_id) ==> old(backend)@.pending.contains_key(
            proxy_id,
        ) && final(backend)@.pending[proxy_id] == old(backend)@.pending[proxy_id],
        final(backend)@ == (BackendView { pending: final(backend)@.pending, ..old(backend)@ }),
{
}

/// When the process prints no more, every request that waits is told so, once: there are as many
/// answers as requests, each is an error with the code and the words for a backend that is gone,
/// and the reading task ends with nothing left waiting.
pub proof fn end_of_output_answers_everyone<T, P>(
    backend: &mut BackendInstance<T>,
    action: ReaderAction<T, P>,
    proxy_id: u64,
)
    requires
        call_ensures(
            BackendInstance::<T>::reader_step::<P>,
            (backend, ReaderEvent::Ended),
            action,
        ),
    ensures
        action is Stop,
        action->Stop_0@.len() == old(backend)@.pending.len(),
        final(backend)@ == (BackendView { pending: Map::empty(), ..old(backend)@ }),
        forall|i: int|
            0 <= i < action->Stop_0@.len() ==> {
                let answer = (#[trigger] action->Stop_0@[i]).1;
                &&& answer.jsonrpc@ == "2.0"@
                &&& answer.result is None
                &&& answer.error matches Some(error) && error.code == -32001 && error.message@
                    == "Backend process terminated unexpectedly"@ && error.data is None
            },
        old(backend)@.pending.contains_key(proxy_id) ==> exists|i: int|
            0 <= i < action->Stop_0@.len() && (#[trigger] action->Stop_0@[i]).0
                == old(backend)@.pending[proxy_id].reply && action->Stop_0@[i].1.id
                == old(backend)@.pending[proxy_id].client_id,
{
    let waiting = old(backend)@.pending;
    let sent = action->Stop_0@;
    let ids = choose|ids: Seq<u64>| #[trigger] all_failed(waiting, ids, sent);
    ids.unique_seq_to_set();
    assert forall|i: int| 0 <= i < sent.len() implies is_gone_answer(
        (#[trigger] sent[i]).1,
        waiting[ids[i]].client_id,
    ) by {
        assert(sent[i].0 == waiting[ids[i]].reply);
    }
    if waiting.contains_key(proxy_id) {
        assert(ids.to_set().contains(proxy_id));
        let i = choose|i: int| 0 <= i < ids.len() && ids[i] == proxy_id;
        assert(sent[i].0 == waiting[proxy_id].reply);
    }
}

/// A line that holds more than white space is looked into for an answer, without the white space
/// around it; a blank line is passed over. Neither changes anything.
pub proof fn line_is_looked_into<T, P>(
    backend: &mut BackendInstance<T>,
    line: String,
    before: Seq<char>,
    message: Seq<char>,
    behind: Seq<char>,
    action: ReaderAction<T, P>,
)
    requires
        call_ensures(
            BackendInstance::<T>::reader_step::<P>,
            (backend, ReaderEvent::Line(line)),
            action,
        ),
        line@ == before + message + behind,
        forall|i: int| 0 <= i < before.len() ==> is_white(#[trigger] before[i]),
        forall|i: int| 0 <= i < behind.len() ==> is_white(#[trigger] behind[i]),
        message.len() > 0 ==> !is_white(message[0]) && !is_white(message.last()),
    ensures
        final(backend)@ == old(backend)@,
        if message.len() > 0 {
            action matches ReaderAction::Parse(text) && text@ == message
        } else {
            action is ReadOn
        },
{
    trimming_leaves_the_middle(before, message, behind);
}

/// What is framed for a backend is read back from the line: a message without white space around
/// it comes out of its line as it went in.
pub proof fn framed_message_is_read<T, P>(
    message: &str,
    line: String,
    backend: &mut BackendInstance<T>,
    action: ReaderAction<T, P>,
)
    requires
        call_ensures(frame_message, (message,), line),
        call_ensures(
            BackendInstance::<T>::reader_step::<P>,
            (backend, ReaderEvent::Line(line)),
            action,
        ),
        message@.len() > 0,
        !is_white(message@[0]),
        !is_white(message@.last()),
    ensures
        action matches ReaderAction::Parse(text) && text@ == message@,
        line@.len() == message@.len() + 1,
        line@.last() == '\n',
{
    reveal_strlit("\n");
    let none = Seq::<char>::empty();
    assert(line@ =~= none + message@ + seq!['\n']);
    assert("\n"@ =~= seq!['\n']);
    trimming_leaves_the_middle(none, message@, seq!['\n']);
}

} // verus!
