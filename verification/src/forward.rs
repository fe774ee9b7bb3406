//! An exchange with a server, step by step. What happens outside is an event; what is to be done
//! next is an action.
use crate::action;
use crate::action::MockModel;
use crate::action::MockResponse;
use crate::capture;
use crate::capture::CaptureStore;
use crate::capture::HeaderText;
use crate::capture::Traffic;
use crate::capture::TrafficModel;
use crate::exchange;
use crate::exchange::RequestHead;
use crate::exchange::ResponseHead;
use crate::headers;
use crate::inspect;
use crate::message;
use crate::operation;
use crate::operation::OpText;
use crate::operation::Operation;
use crate::rewrite;
use crate::seqs;
use crate::text;
use core::time::Duration;
use vstd::prelude::*;

verus! {

/// What is awaited.
#[derive(Debug)]
pub enum Stage {
    /// The start.
    Begin,
    /// The end of the delay before the request.
    Delayed,
    /// The body of the request.
    BodyAwaited,
    /// The time that the body of the request takes.
    Paced(Vec<u8>),
    /// The response.
    Sent,
    /// The end of the delay before the response.
    ResponseDelayed,
    /// The body of the response.
    ResponseBodyAwaited,
    /// The time that the body of the response takes.
    ResponsePaced(Vec<u8>),
    /// Nothing: the exchange is over.
    Over,
}

/// What is awaited.
pub enum StageModel {
    Begin,
    Delayed,
    BodyAwaited,
    Paced(Seq<u8>),
    Sent,
    ResponseDelayed,
    ResponseBodyAwaited,
    ResponsePaced(Seq<u8>),
    Over,
}

impl View for Stage {
    type V = StageModel;

    open spec fn view(&self) -> StageModel {
        match *self {
            Stage::Begin => StageModel::Begin,
            Stage::Delayed => StageModel::Delayed,
            Stage::BodyAwaited => StageModel::BodyAwaited,
            Stage::Paced(b) => StageModel::Paced(b@),
            Stage::Sent => StageModel::Sent,
            Stage::ResponseDelayed => StageModel::ResponseDelayed,
            Stage::ResponseBodyAwaited => StageModel::ResponseBodyAwaited,
            Stage::ResponsePaced(b) => StageModel::ResponsePaced(b@),
            Stage::Over => StageModel::Over,
        }
    }
}

/// What has happened.
pub enum Event {
    /// The server is there.
    Started,
    /// The time is over.
    Waited,
    /// A body has come.
    Body(Vec<u8>),
    /// The response has come.
    Response(ResponseHead),
    /// What was awaited has failed.
    Failed(String),
}

/// What has happened.
pub enum EventModel {
    Started,
    Waited,
    Body(Seq<u8>),
    Response(u16, Map<Seq<char>, Seq<Seq<u8>>>),
    Failed(Seq<char>),
}

impl View for Event {
    type V = EventModel;

    open spec fn view(&self) -> EventModel {
        match *self {
            Event::Started => EventModel::Started,
            Event::Waited => EventModel::Waited,
            Event::Body(b) => EventModel::Body(b@),
            Event::Response(r) => EventModel::Response(
                r.status,
                headers::header_contents(r.headers),
            ),
            Event::Failed(e) => EventModel::Failed(e@),
        }
    }
}

/// What is to be done.
pub enum Action {
    /// Wait this long.
    Wait(Duration),
    /// Read the body of the request.
    ReadRequestBody,
    /// Send the request, with this body or the one that comes.
    Send(Option<Vec<u8>>),
    /// Read the body of the response.
    ReadResponseBody,
    /// Hand the response on, with this body or the one that comes.
    Respond(Option<Vec<u8>>),
    /// Answer with this response.
    Fail(MockResponse),
}

/// What is to be done.
pub enum ActionModel {
    Wait(Duration),
    ReadRequestBody,
    Send(Option<Seq<u8>>),
    ReadResponseBody,
    Respond(Option<Seq<u8>>),
    Fail(MockModel),
}

/// The bytes of an optional body.
pub open spec fn opt_bytes(b: Option<Vec<u8>>) -> Option<Seq<u8>> {
    match b {
        Some(v) => Some(v@),
        None => None,
    }
}

impl View for Action {
    type V = ActionModel;

    open spec fn view(&self) -> ActionModel {
        match *self {
            Action::Wait(d) => ActionModel::Wait(d),
            Action::ReadRequestBody => ActionModel::ReadRequestBody,
            Action::Send(b) => ActionModel::Send(opt_bytes(b)),
            Action::ReadResponseBody => ActionModel::ReadResponseBody,
            Action::Respond(b) => ActionModel::Respond(opt_bytes(b)),
            Action::Fail(m) => ActionModel::Fail(m@),
        }
    }
}

/// An exchange with a server.
pub struct Forward {
    stage: Stage,
    ops: Vec<Operation>,
    limit: usize,
    keep_target: bool,
    pub request: RequestHead,
    pub response: ResponseHead,
    pub traffic: Traffic,
}

/// What is known of an exchange.
pub struct ForwardModel {
    pub stage: StageModel,
    pub ops: Seq<OpText>,
    /// How many bytes of a body are recorded.
    pub limit: int,
    /// The target is kept as it is, for a proxy.
    pub keep_target: bool,
    pub method: Seq<char>,
    pub target: Seq<char>,
    pub request: Map<Seq<char>, Seq<Seq<u8>>>,
    pub status: u16,
    pub response: Map<Seq<char>, Seq<Seq<u8>>>,
    pub traffic: TrafficModel,
}

impl View for Forward {
    type V = ForwardModel;

    closed spec fn view(&self) -> ForwardModel {
        ForwardModel {
            stage: self.stage@,
            ops: operation::op_texts(self.ops@),
            limit: self.limit as int,
            keep_target: self.keep_target,
            method: self.request.method@,
            target: self.request.target@,
            request: headers::header_contents(self.request.headers),
            status: self.response.status,
            response: headers::header_contents(self.response.headers),
            traffic: self.traffic@,
        }
    }
}

// ---- the steps ----

/// The head of the request as it is sent.
pub open spec fn request_prepared(f: ForwardModel) -> ForwardModel {
    let edits = inspect::request_edits(f.ops);
    let target = exchange::rewritten_target(f.target, f.ops);
    ForwardModel {
        method: rewrite::method_by(f.ops, f.method),
        target: if f.keep_target {
            f.target
        } else {
            exchange::target_or_root(target, exchange::is_uri(target))
        },
        request: headers::edited_by(
            message::without_hops(f.request),
            edits,
            edits.len() as int,
        ),
        ..f
    }
}

/// The request is sent once its body, where it is held back, was read.
pub open spec fn request_due(f: ForwardModel) -> (ForwardModel, ActionModel) {
    if operation::mentions(f.ops, rewrite::req_body_protocols()) || message::is_within_limit(
        f.request,
        f.limit as nat,
    ) {
        (
            ForwardModel { stage: StageModel::BodyAwaited, ..f },
            ActionModel::ReadRequestBody,
        )
    } else {
        (ForwardModel { stage: StageModel::Sent, ..f }, ActionModel::Send(None))
    }
}

/// The body of the request is rewritten and recorded.
pub open spec fn request_body_taken(f: ForwardModel, body: Seq<u8>) -> ForwardModel {
    let out = exchange::sent_body(body, f.ops);
    ForwardModel {
        request: if operation::mentions(f.ops, rewrite::req_body_protocols()) {
            message::with_length(f.request, out.len())
        } else {
            f.request
        },
        traffic: TrafficModel {
            req_body_size: out.len() as u64,
            req_body: Some(capture::preview(out, f.limit)),
            ..f.traffic
        },
        ..f
    }
}

/// The head of the response as it is handed on.
pub open spec fn response_prepared(
    f: ForwardModel,
    status: u16,
    contents: Map<Seq<char>, Seq<Seq<u8>>>,
) -> ForwardModel {
    let edits = inspect::response_edits(f.ops);
    ForwardModel {
        status: rewrite::status_by(f.ops, status),
        response: headers::edited_by(contents, edits, edits.len() as int),
        ..f
    }
}

/// The response is handed on, and the exchange is recorded.
pub open spec fn responded(
    f: ForwardModel,
    body: Option<Seq<u8>>,
    now: u64,
    fields: Seq<HeaderText>,
) -> (ForwardModel, ActionModel) {
    (
        ForwardModel {
            stage: StageModel::Over,
            traffic: exchange::answered(f.traffic, f.status, fields, now),
            ..f
        },
        ActionModel::Respond(body),
    )
}

/// The response is handed on once its body, where it is held back, was read.
pub open spec fn response_due(f: ForwardModel, now: u64, fields: Seq<HeaderText>) -> (
    ForwardModel,
    ActionModel,
) {
    if operation::mentions(f.ops, rewrite::res_body_protocols()) || message::is_within_limit(
        f.response,
        f.limit as nat,
    ) {
        (
            ForwardModel { stage: StageModel::ResponseBodyAwaited, ..f },
            ActionModel::ReadResponseBody,
        )
    } else {
        responded(f, None, now, fields)
    }
}

/// The body of the response is rewritten and recorded.
pub open spec fn response_body_taken(f: ForwardModel, body: Seq<u8>) -> ForwardModel {
    let out = exchange::handed_body(body, f.ops);
    ForwardModel {
        response: if operation::mentions(f.ops, rewrite::res_body_protocols()) {
            message::with_length(f.response, out.len())
        } else {
            f.response
        },
        traffic: TrafficModel {
            res_body_size: out.len() as u64,
            res_body: Some(capture::preview(out, f.limit)),
            res_body_truncated: out.len() > f.limit,
            ..f.traffic
        },
        ..f
    }
}

/// The exchange has failed, and this is recorded.
pub open spec fn forward_failed(f: ForwardModel, reason: Seq<char>, now: u64) -> (
    ForwardModel,
    ActionModel,
) {
    (
        ForwardModel {
            stage: StageModel::Over,
            traffic: exchange::failed(f.traffic, 502, reason, now),
            ..f
        },
        ActionModel::Fail(action::text_response(502, reason)),
    )
}

/// An event is one of those that are awaited.
pub open spec fn is_awaited(stage: StageModel, event: EventModel) -> bool {
    match stage {
        StageModel::Begin => event is Started,
        StageModel::Delayed => event is Waited,
        StageModel::BodyAwaited => event is Body || event is Failed,
        StageModel::Paced(_) => event is Waited,
        StageModel::Sent => event is Response || event is Failed,
        StageModel::ResponseDelayed => event is Waited,
        StageModel::ResponseBodyAwaited => event is Body || event is Failed,
        StageModel::ResponsePaced(_) => event is Waited,
        StageModel::Over => false,
    }
}

/// The request is made ready, and waits where a delay was asked for.
pub open spec fn started(f: ForwardModel) -> (ForwardModel, ActionModel) {
    let p = request_prepared(f);
    match rewrite::delay(rewrite::req_delay_ms(f.ops)) {
        Some(d) => (ForwardModel { stage: StageModel::Delayed, ..p }, ActionModel::Wait(d)),
        None => request_due(p),
    }
}

/// The request is sent with its body, after the time that this takes.
pub open spec fn body_sent(f: ForwardModel, body: Seq<u8>) -> (ForwardModel, ActionModel) {
    let p = request_body_taken(f, body);
    let out = exchange::sent_body(body, f.ops);
    match rewrite::delay(rewrite::req_speed_ms(f.ops, out.len())) {
        Some(d) => (ForwardModel { stage: StageModel::Paced(out), ..p }, ActionModel::Wait(d)),
        None => (ForwardModel { stage: StageModel::Sent, ..p }, ActionModel::Send(Some(out))),
    }
}

/// The response is made ready, and waits where a delay was asked for.
pub open spec fn response_taken(
    f: ForwardModel,
    status: u16,
    contents: Map<Seq<char>, Seq<Seq<u8>>>,
    now: u64,
    fields: Seq<HeaderText>,
) -> (ForwardModel, ActionModel) {
    let p = response_prepared(f, status, contents);
    match rewrite::delay(rewrite::res_delay_ms(f.ops)) {
        Some(d) => (
            ForwardModel { stage: StageModel::ResponseDelayed, ..p },
            ActionModel::Wait(d),
        ),
        None => response_due(p, now, fields),
    }
}

/// The response is handed on with its body, after the time that this takes.
pub open spec fn body_handed(
    f: ForwardModel,
    body: Seq<u8>,
    now: u64,
    fields: Seq<HeaderText>,
) -> (ForwardModel, ActionModel) {
    let p = response_body_taken(f, body);
    let out = exchange::handed_body(body, f.ops);
    match rewrite::delay(rewrite::res_speed_ms(f.ops, out.len())) {
        Some(d) => (
            ForwardModel { stage: StageModel::ResponsePaced(out), ..p },
            ActionModel::Wait(d),
        ),
        None => responded(p, Some(out), now, fields),
    }
}

/// What is known after an event, and what is to be done. Where the response is handed on,
/// `fields` are its header fields as they are recorded. An event that is not awaited changes
/// nothing.
pub open spec fn stepped(
    f: ForwardModel,
    event: EventModel,
    now: u64,
    fields: Seq<HeaderText>,
) -> (ForwardModel, ActionModel) {
    match (f.stage, event) {
        (StageModel::Begin, EventModel::Started) => started(f),
        (StageModel::Delayed, EventModel::Waited) => request_due(f),
        (StageModel::BodyAwaited, EventModel::Body(body)) => body_sent(f, body),
        (StageModel::BodyAwaited, EventModel::Failed(e)) => forward_failed(
            f,
            "读取请求体失败: "@ + e,
            now,
        ),
        (StageModel::Paced(out), EventModel::Waited) => (
            ForwardModel { stage: StageModel::Sent, ..f },
            ActionModel::Send(Some(out)),
        ),
        (StageModel::Sent, EventModel::Response(status, contents)) => response_taken(
            f,
            status,
            contents,
            now,
            fields,
        ),
        (StageModel::Sent, EventModel::Failed(e)) => forward_failed(
            f,
            "上游请求失败: "@ + e,
            now,
        ),
        (StageModel::ResponseDelayed, EventModel::Waited) => response_due(f, now, fields),
        (StageModel::ResponseBodyAwaited, EventModel::Body(body)) => body_handed(
            f,
            body,
            now,
            fields,
        ),
        (StageModel::ResponseBodyAwaited, EventModel::Failed(e)) => forward_failed(
            f,
            "读取响应体失败: "@ + e,
            now,
        ),
        (StageModel::ResponsePaced(out), EventModel::Waited) => responded(
            f,
            Some(out),
            now,
            fields,
        ),
        _ => (f, ActionModel::ReadRequestBody),
    }
}

/// The header maps have room for the changes that are still to come.
pub open spec fn has_room_for(f: ForwardModel, event: EventModel) -> bool {
    match event {
        EventModel::Started => headers::has_room(
            f.request,
            inspect::request_edits(f.ops).len() as int + 1,
        ),
        EventModel::Response(_, contents) => headers::has_room(
            contents,
            inspect::response_edits(f.ops).len() as int + 1,
        ),
        _ => true,
    }
}

impl Forward {
    /// A header map whose body may be rewritten has room for its length.
    pub closed spec fn wf(&self) -> bool {
        &&& self.stage is Delayed || self.stage is BodyAwaited ==> headers::has_room(
            headers::header_contents(self.request.headers),
            1,
        )
        &&& self.stage is ResponseDelayed || self.stage is ResponseBodyAwaited
            ==> headers::has_room(headers::header_contents(self.response.headers), 1)
    }

    /// An exchange that is about to start. The response is a placeholder for the one to come.
    pub fn new(
        request: RequestHead,
        ops: Vec<Operation>,
        traffic: Traffic,
        limit: usize,
        keep_target: bool,
        response: ResponseHead,
    ) -> (r: Forward)
        ensures
            r.wf(),
            r@ == (ForwardModel {
                stage: StageModel::Begin,
                ops: operation::op_texts(ops@),
                limit: limit as int,
                keep_target,
                method: request.method@,
                target: request.target@,
                request: headers::header_contents(request.headers),
                status: response.status,
                response: headers::header_contents(response.headers),
                traffic: traffic@,
            }),
    {
        Forward { stage: Stage::Begin, ops, limit, keep_target, request, response, traffic }
    }

    /// Whether the request's header fields have room for the changes.
    pub fn request_has_room(&self) -> (r: bool)
        ensures
            r == has_room_for(self@, EventModel::Started),
    {
        let edits = inspect::request_header_edits(self.ops.as_slice());
        let n: usize = edits.len();
        proof {
            assert(headers::edit_models(edits@).len() == edits@.len());
        }
        n < usize::MAX && headers::room_for(&self.request.headers, n + 1)
    }

    /// Whether a response's header fields have room for the changes.
    pub fn response_has_room(&self, response: &ResponseHead) -> (r: bool)
        ensures
            r == has_room_for(
                self@,
                EventModel::Response(response.status, headers::header_contents(response.headers)),
            ),
    {
        let edits = inspect::response_header_edits(self.ops.as_slice());
        let n: usize = edits.len();
        proof {
            assert(headers::edit_models(edits@).len() == edits@.len());
        }
        n < usize::MAX && headers::room_for(&response.headers, n + 1)
    }

    fn request_due(&mut self) -> (r: Action)
        requires
            headers::has_room(old(self)@.request, 1),
        ensures
            final(self).wf(),
            (final(self)@, r@) == request_due(old(self)@),
    {
        if exchange::holds_request_body(self.ops.as_slice(), &self.request.headers, self.limit) {
            self.stage = Stage::BodyAwaited;
            Action::ReadRequestBody
        } else {
            self.stage = Stage::Sent;
            Action::Send(None)
        }
    }

    fn respond(&mut self, store: &mut CaptureStore, body: Option<Vec<u8>>, now: u64) -> (r: Action)
        requires
            old(store).wf(),
        ensures
            final(self).wf(),
            (final(self)@, r@) == responded(
                old(self)@,
                opt_bytes(body),
                now,
                final(self)@.traffic.res_headers,
            ),
            exchange::lists(final(self)@.traffic.res_headers, final(self)@.response),
            exchange::stored(*old(store), *final(store), final(self)@.traffic),
    {
        self.stage = Stage::Over;
        exchange::finish_response_at(
            store,
            &mut self.traffic,
            self.response.status,
            &self.response.headers,
            now,
        );
        Action::Respond(body)
    }

    fn response_due(&mut self, store: &mut CaptureStore, now: u64) -> (r: Action)
        requires
            headers::has_room(old(self)@.response, 1),
            old(store).wf(),
        ensures
            final(self).wf(),
            (final(self)@, r@) == response_due(
                old(self)@,
                now,
                final(self)@.traffic.res_headers,
            ),
            r@ is Respond ==> exchange::lists(
                final(self)@.traffic.res_headers,
                final(self)@.response,
            ) && exchange::stored(*old(store), *final(store), final(self)@.traffic),
            r@ is ReadResponseBody ==> *final(store) == *old(store),
    {
        if exchange::holds_response_body(self.ops.as_slice(), &self.response.headers, self.limit) {
            self.stage = Stage::ResponseBodyAwaited;
            Action::ReadResponseBody
        } else {
            self.respond(store, None, now)
        }
    }

    fn fail(&mut self, store: &mut CaptureStore, reason: &str, now: u64) -> (r: Action)
        requires
            old(store).wf(),
        ensures
            final(self).wf(),
            (final(self)@, r@) == forward_failed(old(self)@, reason@, now),
            exchange::stored(*old(store), *final(store), final(self)@.traffic),
    {
        self.stage = Stage::Over;
        let m = exchange::finish_error_at(store, &mut self.traffic, 502, reason, now);
        Action::Fail(m)
    }

    fn start(&mut self) -> (r: Action)
        requires
            has_room_for(old(self)@, EventModel::Started),
        ensures
            final(self).wf(),
            (final(self)@, r@) == started(old(self)@),
    {
        proof {
            let edits = inspect::request_edits(self@.ops);
            let n = edits.len() as int;
            exchange::lemma_hops_leave_room(self@.request, n + 1, 9);
            headers::lemma_edits_leave_room(message::without_hops(self@.request), edits, n, 1);
        }
        exchange::prepare_request(&mut self.request, self.ops.as_slice(), self.keep_target);
        match rewrite::req_delay(self.ops.as_slice()) {
            Some(d) => {
                self.stage = Stage::Delayed;
                Action::Wait(d)
            },
            None => self.request_due(),
        }
    }

    fn send_body(&mut self, body: Vec<u8>) -> (r: Action)
        requires
            headers::has_room(old(self)@.request, 1),
        ensures
            final(self).wf(),
            (final(self)@, r@) == body_sent(old(self)@, body@),
    {
        let out = exchange::take_request_body(
            &mut self.request.headers,
            &mut self.traffic,
            self.ops.as_slice(),
            body,
            self.limit,
        );
        match rewrite::req_speed_delay(self.ops.as_slice(), out.len()) {
            Some(d) => {
                self.stage = Stage::Paced(out);
                Action::Wait(d)
            },
            None => {
                self.stage = Stage::Sent;
                Action::Send(Some(out))
            },
        }
    }

    fn take_response(&mut self, store: &mut CaptureStore, response: ResponseHead, now: u64) -> (r:
        Action)
        requires
            has_room_for(
                old(self)@,
                EventModel::Response(response.status, headers::header_contents(response.headers)),
            ),
            old(store).wf(),
        ensures
            final(self).wf(),
            (final(self)@, r@) == response_taken(
                old(self)@,
                response.status,
                headers::header_contents(response.headers),
                now,
                final(self)@.traffic.res_headers,
            ),
            r@ is Respond ==> exchange::lists(
                final(self)@.traffic.res_headers,
                final(self)@.response,
            ) && exchange::stored(*old(store), *final(store), final(self)@.traffic),
            !(r@ is Respond) ==> *final(store) == *old(store),
    {
        proof {
            let edits = inspect::response_edits(self@.ops);
            headers::lemma_edits_leave_room(
                headers::header_contents(response.headers),
                edits,
                edits.len() as int,
                1,
            );
        }
        self.response = response;
        exchange::prepare_response(&mut self.response, self.ops.as_slice());
        match rewrite::res_delay(self.ops.as_slice()) {
            Some(d) => {
                self.stage = Stage::ResponseDelayed;
                Action::Wait(d)
            },
            None => self.response_due(store, now),
        }
    }

    fn hand_body(&mut self, store: &mut CaptureStore, body: Vec<u8>, now: u64) -> (r: Action)
        requires
            headers::has_room(old(self)@.response, 1),
            old(store).wf(),
        ensures
            final(self).wf(),
            (final(self)@, r@) == body_handed(
                old(self)@,
                body@,
                now,
                final(self)@.traffic.res_headers,
            ),
            r@ is Respond ==> exchange::lists(
                final(self)@.traffic.res_headers,
                final(self)@.response,
            ) && exchange::stored(*old(store), *final(store), final(self)@.traffic),
            !(r@ is Respond) ==> *final(store) == *old(store),
    {
        let out = exchange::take_response_body(
            &mut self.response.headers,
            &mut self.traffic,
            self.ops.as_slice(),
            body,
            self.limit,
        );
        match rewrite::res_speed_delay(self.ops.as_slice(), out.len()) {
            Some(d) => {
                self.stage = Stage::ResponsePaced(out);
                Action::Wait(d)
            },
            None => self.respond(store, Some(out), now),
        }
    }

    /// Takes an event. Gives what is to be done. The exchange is recorded where it ends.
    pub fn step(&mut self, store: &mut CaptureStore, event: Event, now: u64) -> (r: Action)
        requires
            old(self).wf(),
            old(store).wf(),
            is_awaited(old(self)@.stage, event@),
            has_room_for(old(self)@, event@),
        ensures
            final(self).wf(),
            (final(self)@, r@) == stepped(
                old(self)@,
                event@,
                now,
                final(self)@.traffic.res_headers,
            ),
            r@ is Respond ==> exchange::lists(
                final(self)@.traffic.res_headers,
                final(self)@.response,
            ),
            if r@ is Respond || r@ is Fail {
                exchange::stored(*old(store), *final(store), final(self)@.traffic)
            } else {
                *final(store) == *old(store)
            },
    {
        let mut stage = Stage::Over;
        std::mem::swap(&mut stage, &mut self.stage);
        match stage {
            Stage::Begin => self.start(),
            Stage::Delayed => self.request_due(),
            Stage::BodyAwaited => match event {
                Event::Body(body) => self.send_body(body),
                Event::Failed(e) => {
                    let reason = text::cat("读取请求体失败: ", e.as_str());
                    self.fail(store, reason.as_str(), now)
                },
                _ => Action::ReadRequestBody,
            },
            Stage::Paced(out) => {
                self.stage = Stage::Sent;
                Action::Send(Some(out))
            },
            Stage::Sent => match event {
                Event::Response(response) => self.take_response(store, response, now),
                Event::Failed(e) => {
                    let reason = text::cat("上游请求失败: ", e.as_str());
                    self.fail(store, reason.as_str(), now)
                },
                _ => Action::ReadRequestBody,
            },
            Stage::ResponseDelayed => self.response_due(store, now),
            Stage::ResponseBodyAwaited => match event {
                Event::Body(body) => self.hand_body(store, body, now),
                Event::Failed(e) => {
                    let reason = text::cat("读取响应体失败: ", e.as_str());
                    self.fail(store, reason.as_str(), now)
                },
                _ => Action::ReadRequestBody,
            },
            Stage::ResponsePaced(out) => self.respond(store, Some(out), now),
            Stage::Over => Action::ReadRequestBody,
        }
    }
}

// ---- laws ----

/// How many more events there can be.
pub open spec fn steps_left(stage: StageModel) -> nat {
    match stage {
        StageModel::Begin => 8,
        StageModel::Delayed => 7,
        StageModel::BodyAwaited => 6,
        StageModel::Paced(_) => 5,
        StageModel::Sent => 4,
        StageModel::ResponseDelayed => 3,
        StageModel::ResponseBodyAwaited => 2,
        StageModel::ResponsePaced(_) => 1,
        StageModel::Over => 0,
    }
}

/// An exchange comes to its end: each event leaves fewer to come, and what ends it is a response
/// that is handed on or a failure.
pub proof fn law_exchanges_end(
    f: ForwardModel,
    event: EventModel,
    now: u64,
    fields: Seq<HeaderText>,
)
    requires
        is_awaited(f.stage, event),
    ensures
        ({
            let (after, action) = stepped(f, event, now, fields);
            &&& steps_left(after.stage) < steps_left(f.stage)
            &&& after.stage is Over == (action is Respond || action is Fail)
        }),
{
}

/// A failure is answered with 502 and recorded with its reason.
pub proof fn law_failures_are_told(
    f: ForwardModel,
    reason: Seq<char>,
    now: u64,
    fields: Seq<HeaderText>,
)
    requires
        is_awaited(f.stage, EventModel::Failed(reason)),
    ensures
        ({
            let (after, action) = stepped(f, EventModel::Failed(reason), now, fields);
            &&& action matches ActionModel::Fail(m) && m.status == 502
            &&& after.traffic.status == Some(502u16)
            &&& after.traffic.error is Some
        }),
{
}

/// Without operations, and with bodies that are not recorded, an exchange passes through as it
/// is: only the headers of one connection do not go on.
pub proof fn law_plain_exchange_passes_through(
    f: ForwardModel,
    status: u16,
    contents: Map<Seq<char>, Seq<Seq<u8>>>,
    now: u64,
    fields: Seq<HeaderText>,
)
    requires
        f.stage is Begin,
        f.ops.len() == 0,
        f.keep_target,
        !message::is_within_limit(message::without_hops(f.request), f.limit as nat),
        !message::is_within_limit(contents, f.limit as nat),
    ensures
        ({
            let (sent, first) = stepped(f, EventModel::Started, now, fields);
            let (done, second) = stepped(
                sent,
                EventModel::Response(status, contents),
                now,
                fields,
            );
            &&& first == ActionModel::Send(None)
            &&& sent.method == f.method
            &&& sent.target == f.target
            &&& sent.request == message::without_hops(f.request)
            &&& second == ActionModel::Respond(None)
            &&& done.status == status
            &&& done.response == contents
        }),
{
    lemma_no_edits(f.ops);
}

proof fn lemma_no_edits(ops: Seq<OpText>)
    requires
        ops.len() == 0,
    ensures
        inspect::request_edits(ops).len() == 0,
        inspect::response_edits(ops).len() == 0,
{
    reveal(Seq::filter);
    assert forall|p: Seq<char>| #[trigger] operation::all_of(ops, p).len() == 0 by {}
}

/// A request goes on with the method and the target that were asked for, and with its own header
/// fields but for those of one connection, changed by the operations. It waits for the time that was
/// asked for, and goes on at once where none was.
pub proof fn law_request_goes_on_as_asked_for(
    f: ForwardModel,
    now: u64,
    fields: Seq<HeaderText>,
    ms: u64,
)
    requires
        f.stage is Begin,
    ensures
        ({
            let (after, action) = stepped(f, EventModel::Started, now, fields);
            let target = exchange::rewritten_target(f.target, f.ops);
            &&& after.method == rewrite::method_by(f.ops, f.method)
            &&& after.request == inspect::request_fields(message::without_hops(f.request), f.ops)
            &&& f.keep_target ==> after.target == f.target
            &&& !f.keep_target && exchange::is_uri(target) ==> after.target == target
            &&& !f.keep_target && !exchange::is_uri(target) ==> after.target == seq!['/']
            &&& after.traffic == f.traffic
            &&& operation::last_of(f.ops, "reqDelay"@) == Some(seqs::decimal(ms as nat)) ==> action
                == ActionModel::Wait(rewrite::duration_of_millis(ms))
            &&& operation::last_of(f.ops, "reqDelay"@) is None ==> !(action is Wait)
        }),
{
    reveal(inspect::request_fields);
    reveal_strlit("/");
    assert("/"@ =~= seq!['/']);
    rewrite::law_delay_is_the_one_asked_for(f.ops, ms);
}

/// A body is read before it goes on where it is rewritten, or where its length is told and is within
/// the limit of what is recorded. Else it passes through.
pub proof fn law_bodies_are_read_where_they_are_needed(
    f: ForwardModel,
    now: u64,
    fields: Seq<HeaderText>,
)
    ensures
        f.stage is Delayed ==> {
            let (after, action) = stepped(f, EventModel::Waited, now, fields);
            if operation::mentions(f.ops, rewrite::req_body_protocols())
                || message::is_within_limit(
                f.request,
                f.limit as nat,
            ) {
                action is ReadRequestBody && after.stage is BodyAwaited
            } else {
                action == ActionModel::Send(None) && after.stage is Sent
            }
        },
        f.stage is ResponseDelayed ==> {
            let (after, action) = stepped(f, EventModel::Waited, now, fields);
            if operation::mentions(f.ops, rewrite::res_body_protocols())
                || message::is_within_limit(
                f.response,
                f.limit as nat,
            ) {
                action is ReadResponseBody && after.stage is ResponseBodyAwaited
            } else {
                action == ActionModel::Respond(None) && after.stage is Over
            }
        },
{
}

/// The body of a request is sent as the operations make it, at once or after the time that it takes.
/// Its size and its start are recorded, and a body that was rewritten has its new length.
pub proof fn law_request_body_is_sent(
    f: ForwardModel,
    body: Seq<u8>,
    now: u64,
    fields: Seq<HeaderText>,
)
    requires
        f.stage is BodyAwaited,
        exchange::sent_body(body, f.ops).len() <= usize::MAX,
    ensures
        ({
            let (after, action) = stepped(f, EventModel::Body(body), now, fields);
            let out = exchange::sent_body(body, f.ops);
            &&& after.traffic.req_body_size == out.len()
            &&& after.traffic.req_body == Some(capture::preview(out, f.limit))
            &&& operation::mentions(f.ops, rewrite::req_body_protocols()) ==> message::length_of(
                after.request,
            ) == Some(out.len())
            &&& !operation::mentions(f.ops, rewrite::req_body_protocols()) ==> after.request
                == f.request && out == body
            &&& rewrite::req_speed_ms(f.ops, out.len()) is None ==> action == ActionModel::Send(
                Some(out),
            )
            &&& rewrite::req_speed_ms(f.ops, out.len()) is Some ==> action is Wait && stepped(
                after,
                EventModel::Waited,
                now,
                fields,
            ).1 == ActionModel::Send(Some(out))
        }),
{
    let out = exchange::sent_body(body, f.ops);
    message::law_length_is_read_back(f.request, out.len(), "content-length"@);
}

/// A response is handed on with the status that was asked for and its own header fields, changed by
/// the operations. It waits for the time that was asked for.
pub proof fn law_response_goes_on_as_asked_for(
    f: ForwardModel,
    status: u16,
    contents: Map<Seq<char>, Seq<Seq<u8>>>,
    now: u64,
    fields: Seq<HeaderText>,
    ms: u64,
)
    requires
        f.stage is Sent,
    ensures
        ({
            let (after, action) = stepped(f, EventModel::Response(status, contents), now, fields);
            &&& after.status == rewrite::status_by(f.ops, status)
            &&& after.response == inspect::response_fields(contents, f.ops)
            &&& operation::last_of(f.ops, "resDelay"@) == Some(seqs::decimal(ms as nat)) ==> action
                == ActionModel::Wait(rewrite::duration_of_millis(ms))
            &&& operation::last_of(f.ops, "resDelay"@) is None ==> !(action is Wait)
        }),
{
    reveal(inspect::response_fields);
    rewrite::law_delay_is_the_one_asked_for(f.ops, ms);
}

/// The body of a response is handed on as the operations make it, at once or after the time that it
/// takes, and the exchange is over. Its size and its start are recorded, and whether that is all of
/// it. A body that was rewritten has its new length.
pub proof fn law_response_body_is_handed_on(
    f: ForwardModel,
    body: Seq<u8>,
    now: u64,
    fields: Seq<HeaderText>,
)
    requires
        f.stage is ResponseBodyAwaited,
        exchange::handed_body(body, f.ops).len() <= usize::MAX,
    ensures
        ({
            let (after, action) = stepped(f, EventModel::Body(body), now, fields);
            let out = exchange::handed_body(body, f.ops);
            &&& after.traffic.res_body_size == out.len()
            &&& after.traffic.res_body == Some(capture::preview(out, f.limit))
            &&& after.traffic.res_body_truncated <==> out.len() > f.limit
            &&& operation::mentions(f.ops, rewrite::res_body_protocols()) ==> message::length_of(
                after.response,
            ) == Some(out.len())
            &&& !operation::mentions(f.ops, rewrite::res_body_protocols()) ==> after.response
                == f.response && out == body
            &&& rewrite::res_speed_ms(f.ops, out.len()) is None ==> action == ActionModel::Respond(
                Some(out),
            ) && after.traffic.status == Some(f.status)
            &&& rewrite::res_speed_ms(f.ops, out.len()) is Some ==> action is Wait && stepped(
                after,
                EventModel::Waited,
                now,
                fields,
            ).1 == ActionModel::Respond(Some(out))
        }),
{
    let out = exchange::handed_body(body, f.ops);
    message::law_length_is_read_back(f.response, out.len(), "content-length"@);
}

/// The reason for which an exchange failed is told to the client, and recorded, with what failed
/// before it.
pub proof fn law_reason_is_told(
    f: ForwardModel,
    reason: Seq<char>,
    now: u64,
    fields: Seq<HeaderText>,
)
    requires
        is_awaited(f.stage, EventModel::Failed(reason)),
    ensures
        ({
            let (after, action) = stepped(f, EventModel::Failed(reason), now, fields);
            let message = match f.stage {
                StageModel::BodyAwaited => "读取请求体失败: "@ + reason,
                StageModel::Sent => "上游请求失败: "@ + reason,
                _ => "读取响应体失败: "@ + reason,
            };
            &&& after.traffic.error == Some(message)
            &&& action is Fail
            &&& action->Fail_0.body == vstd::utf8::encode_utf8(message)
        }),
{
}

} // verus!
