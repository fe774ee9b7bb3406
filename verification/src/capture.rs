//! Captured traffic: one record per exchange, and the store of the latest records.
use crate::seqs;
use crate::text;
use std::collections::HashMap;
use std::collections::VecDeque;
use vstd::prelude::*;

verus! {

broadcast use vstd::std_specs::hash::group_hash_axioms;

/// A header field.
#[derive(Debug)]
pub struct Header {
    pub name: String,
    pub value: String,
}

/// The texts of a header field.
pub struct HeaderText {
    pub name: Seq<char>,
    pub value: Seq<char>,
}

impl View for Header {
    type V = HeaderText;

    open spec fn view(&self) -> HeaderText {
        HeaderText { name: self.name@, value: self.value@ }
    }
}

impl Clone for Header {
    fn clone(&self) -> (r: Self)
        ensures
            r == *self,
    {
        Header { name: self.name.clone(), value: self.value.clone() }
    }
}

/// The texts of a list of header fields.
pub open spec fn header_texts(v: Seq<Header>) -> Seq<HeaderText> {
    Seq::new(v.len(), |i: int| v[i]@)
}

/// A WebSocket message.
#[derive(Debug)]
pub struct WsMessage {
    /// `send` from the client to the server, `recv` the other way.
    pub dir: String,
    /// The operation code: 1 text, 2 binary, 8 close, 9 ping, 10 pong.
    pub opcode: u8,
    /// The text of a text message.
    pub text: Option<String>,
    /// The size of the payload in bytes.
    pub size: u64,
}

/// What a WebSocket message holds.
pub struct WsText {
    pub dir: Seq<char>,
    pub opcode: u8,
    pub text: Option<Seq<char>>,
    pub size: u64,
}

/// What an optional text holds.
pub open spec fn opt_text(s: Option<String>) -> Option<Seq<char>> {
    match s {
        Some(t) => Some(t@),
        None => None,
    }
}

/// A copy of an optional text.
pub fn copy_opt(s: &Option<String>) -> (r: Option<String>)
    ensures
        r == *s,
{
    match s {
        Some(t) => Some(t.clone()),
        None => None,
    }
}

impl View for WsMessage {
    type V = WsText;

    open spec fn view(&self) -> WsText {
        WsText {
            dir: self.dir@,
            opcode: self.opcode,
            text: opt_text(self.text),
            size: self.size,
        }
    }
}

impl Clone for WsMessage {
    fn clone(&self) -> (r: Self)
        ensures
            r == *self,
    {
        WsMessage {
            dir: self.dir.clone(),
            opcode: self.opcode,
            text: copy_opt(&self.text),
            size: self.size,
        }
    }
}

/// What a list of WebSocket messages holds.
pub open spec fn ws_texts(v: Seq<WsMessage>) -> Seq<WsText> {
    Seq::new(v.len(), |i: int| v[i]@)
}

/// The record of one exchange.
#[derive(Debug)]
pub struct Traffic {
    pub id: u64,
    /// `http`, `https`, `tunnel`, `ws` or `wss`.
    pub protocol: String,
    pub method: String,
    pub url: String,
    pub host: String,
    /// The client's address.
    pub client: String,
    /// The status of the response, once there is one.
    pub status: Option<u16>,
    pub req_headers: Vec<Header>,
    pub res_headers: Vec<Header>,
    /// When the exchange began, in milliseconds since 1970.
    pub start_time: u64,
    /// How long it took in milliseconds, once it is over.
    pub duration_ms: Option<u64>,
    /// The operations that the rules say of it.
    pub rules: Vec<String>,
    /// The start of the request's body.
    pub req_body: Option<String>,
    /// The start of the response's body.
    pub res_body: Option<String>,
    /// The size of the request's body in bytes.
    pub req_body_size: u64,
    /// The size of the response's body in bytes.
    pub res_body_size: u64,
    /// The response's body goes on behind what is kept of it.
    pub res_body_truncated: bool,
    pub ws_messages: Vec<WsMessage>,
    pub error: Option<String>,
}

/// What a record holds.
pub struct TrafficModel {
    pub id: u64,
    pub protocol: Seq<char>,
    pub method: Seq<char>,
    pub url: Seq<char>,
    pub host: Seq<char>,
    pub client: Seq<char>,
    pub status: Option<u16>,
    pub req_headers: Seq<HeaderText>,
    pub res_headers: Seq<HeaderText>,
    pub start_time: u64,
    pub duration_ms: Option<u64>,
    pub rules: Seq<Seq<char>>,
    pub req_body: Option<Seq<char>>,
    pub res_body: Option<Seq<char>>,
    pub req_body_size: u64,
    pub res_body_size: u64,
    pub res_body_truncated: bool,
    pub ws_messages: Seq<WsText>,
    pub error: Option<Seq<char>>,
}

impl View for Traffic {
    type V = TrafficModel;

    open spec fn view(&self) -> TrafficModel {
        TrafficModel {
            id: self.id,
            protocol: self.protocol@,
            method: self.method@,
            url: self.url@,
            host: self.host@,
            client: self.client@,
            status: self.status,
            req_headers: header_texts(self.req_headers@),
            res_headers: header_texts(self.res_headers@),
            start_time: self.start_time,
            duration_ms: self.duration_ms,
            rules: seqs::texts(self.rules@),
            req_body: opt_text(self.req_body),
            res_body: opt_text(self.res_body),
            req_body_size: self.req_body_size,
            res_body_size: self.res_body_size,
            res_body_truncated: self.res_body_truncated,
            ws_messages: ws_texts(self.ws_messages@),
            error: opt_text(self.error),
        }
    }
}

impl Clone for Traffic {
    fn clone(&self) -> (r: Self)
        ensures
            r@ == self@,
    {
        let r = Traffic {
            id: self.id,
            protocol: self.protocol.clone(),
            method: self.method.clone(),
            url: self.url.clone(),
            host: self.host.clone(),
            client: self.client.clone(),
            status: self.status,
            req_headers: self.req_headers.clone(),
            res_headers: self.res_headers.clone(),
            start_time: self.start_time,
            duration_ms: self.duration_ms,
            rules: self.rules.clone(),
            req_body: copy_opt(&self.req_body),
            res_body: copy_opt(&self.res_body),
            req_body_size: self.req_body_size,
            res_body_size: self.res_body_size,
            res_body_truncated: self.res_body_truncated,
            ws_messages: self.ws_messages.clone(),
            error: copy_opt(&self.error),
        };
        proof {
            assert(r.req_headers@ =~= self.req_headers@);
            assert(r.res_headers@ =~= self.res_headers@);
            assert(r.rules@ =~= self.rules@);
            assert(r.ws_messages@ =~= self.ws_messages@);
        }
        r
    }
}

// ---- time ----

/// `SystemTime::UNIX_EPOCH.elapsed()` of std in whole milliseconds: the time since 1970 on the
/// machine's clock, or `None` where that clock stands before 1970. Nothing is stated of the
/// reading, which no argument determines.
#[verifier::external_body]
fn epoch_millis() -> (r: Option<u128>) {
    std::time::SystemTime::UNIX_EPOCH.elapsed().ok().map(|d| d.as_millis())
}

/// A reading of the clock as a timestamp: the low 64 bits, and zero before 1970.
pub open spec fn timestamp(reading: Option<u128>) -> u64 {
    match reading {
        Some(m) => (m % 0x1_0000_0000_0000_0000) as u64,
        None => 0,
    }
}

/// A reading of the clock as a timestamp.
pub fn timestamp_of(reading: Option<u128>) -> (r: u64)
    ensures
        r == timestamp(reading),
{
    match reading {
        Some(m) => (m % 0x1_0000_0000_0000_0000) as u64,
        None => 0,
    }
}

/// The time in milliseconds since 1970. It is whatever the clock says.
pub fn now_ms() -> (r: u64)
    ensures
        exists|reading: Option<u128>| r == #[trigger] timestamp(reading),
{
    let reading = epoch_millis();
    timestamp_of(reading)
}

// ---- records ----

/// The record of an exchange that has just begun.
pub open spec fn begun(
    id: u64,
    protocol: Seq<char>,
    method: Seq<char>,
    url: Seq<char>,
    host: Seq<char>,
    client: Seq<char>,
    start_time: u64,
) -> TrafficModel {
    TrafficModel {
        id,
        protocol,
        method,
        url,
        host,
        client,
        status: None,
        req_headers: seq![],
        res_headers: seq![],
        start_time,
        duration_ms: None,
        rules: seq![],
        req_body: None,
        res_body: None,
        req_body_size: 0,
        res_body_size: 0,
        res_body_truncated: false,
        ws_messages: seq![],
        error: None,
    }
}

/// The start of a body as text, at most `limit` bytes of it.
pub open spec fn preview(bytes: Seq<u8>, limit: int) -> Seq<char> {
    text::lossy_utf8(
        bytes.take(
            if bytes.len() < limit {
                bytes.len() as int
            } else {
                limit
            },
        ),
    )
}

/// The time from `start` to `now`, zero where the clock went back.
pub open spec fn elapsed(start: u64, now: u64) -> u64 {
    if now >= start {
        (now - start) as u64
    } else {
        0
    }
}

/// The start of a body as text.
fn preview_of(bytes: &[u8], limit: usize) -> (r: String)
    ensures
        r@ == preview(bytes@, limit as int),
{
    let n: usize = if bytes.len() < limit {
        bytes.len()
    } else {
        limit
    };
    let part = vstd::slice::slice_subrange(bytes, 0, n);
    proof {
        assert(bytes@.subrange(0, n as int) =~= bytes@.take(n as int));
    }
    text::lossy(part)
}

impl Traffic {
    /// The record of an exchange that begins now.
    pub fn new(id: u64, protocol: &str, method: &str, url: &str, host: &str, client: &str) -> (r:
        Traffic)
        ensures
            r@ == begun(id, protocol@, method@, url@, host@, client@, r.start_time),
    {
        let now = now_ms();
        Traffic::started_at(id, protocol, method, url, host, client, now)
    }

    /// The record of an exchange that began at `start_time`.
    pub fn started_at(
        id: u64,
        protocol: &str,
        method: &str,
        url: &str,
        host: &str,
        client: &str,
        start_time: u64,
    ) -> (r: Traffic)
        ensures
            r@ == begun(id, protocol@, method@, url@, host@, client@, start_time),
    {
        let r = Traffic {
            id,
            protocol: protocol.to_string(),
            method: method.to_string(),
            url: url.to_string(),
            host: host.to_string(),
            client: client.to_string(),
            status: None,
            req_headers: Vec::new(),
            res_headers: Vec::new(),
            start_time,
            duration_ms: None,
            rules: Vec::new(),
            req_body: None,
            res_body: None,
            req_body_size: 0,
            res_body_size: 0,
            res_body_truncated: false,
            ws_messages: Vec::new(),
            error: None,
        };
        proof {
            assert(r@.req_headers =~= seq![]);
            assert(r@.res_headers =~= seq![]);
            assert(r@.rules =~= seq![]);
            assert(r@.ws_messages =~= seq![]);
        }
        r
    }

    /// Appends a WebSocket message; once there are `max`, further ones are dropped.
    pub fn push_ws(&mut self, msg: WsMessage, max: usize)
        ensures
            final(self)@ == (TrafficModel {
                ws_messages: if old(self)@.ws_messages.len() < max {
                    old(self)@.ws_messages.push(msg@)
                } else {
                    old(self)@.ws_messages
                },
                ..old(self)@
            }),
    {
        if self.ws_messages.len() < max {
            self.ws_messages.push(msg);
            proof {
                assert(self@.ws_messages =~= old(self)@.ws_messages.push(msg@));
            }
        }
    }

    /// Keeps the size of the request's body and at most `limit` bytes of it.
    pub fn set_req_body(&mut self, bytes: &[u8], limit: usize)
        ensures
            final(self)@ == (TrafficModel {
                req_body_size: bytes@.len() as u64,
                req_body: Some(preview(bytes@, limit as int)),
                ..old(self)@
            }),
    {
        self.req_body_size = bytes.len() as u64;
        self.req_body = Some(preview_of(bytes, limit));
    }

    /// Keeps the size of the response's body and at most `limit` bytes of it.
    pub fn set_res_body(&mut self, bytes: &[u8], limit: usize)
        ensures
            final(self)@ == (TrafficModel {
                res_body_size: bytes@.len() as u64,
                res_body: Some(preview(bytes@, limit as int)),
                res_body_truncated: bytes@.len() > limit,
                ..old(self)@
            }),
    {
        self.res_body_size = bytes.len() as u64;
        self.res_body = Some(preview_of(bytes, limit));
        self.res_body_truncated = bytes.len() > limit;
    }

    /// The exchange is over now.
    pub fn finish(&mut self)
        ensures
            exists|now: u64|
                final(self)@ == (TrafficModel {
                    duration_ms: Some(#[trigger] elapsed(old(self)@.start_time, now)),
                    ..old(self)@
                }),
    {
        let now = now_ms();
        self.finish_at(now);
        proof {
            let _ = elapsed(old(self)@.start_time, now);
        }
    }

    /// The exchange was over at `now`.
    pub fn finish_at(&mut self, now: u64)
        ensures
            final(self)@ == (TrafficModel {
                duration_ms: Some(elapsed(old(self)@.start_time, now)),
                ..old(self)@
            }),
    {
        let d: u64 = if now >= self.start_time {
            now - self.start_time
        } else {
            0
        };
        self.duration_ms = Some(d);
    }
}

// ---- the store ----

/// The latest records, oldest first, at most `capacity` of them.
pub struct CaptureStore {
    order: VecDeque<u64>,
    map: HashMap<u64, Traffic>,
    next_id: u64,
    capacity: usize,
    events: Vec<Traffic>,
}

impl View for CaptureStore {
    type V = Seq<TrafficModel>;

    closed spec fn view(&self) -> Seq<TrafficModel> {
        Seq::new(self.order@.len(), |i: int| self.map@[self.order@[i]]@)
    }
}

/// The position of the record with this id, from `i` on.
pub open spec fn position_from(records: Seq<TrafficModel>, id: u64, i: int) -> Option<int>
    decreases records.len() - i,
{
    if i < 0 || i >= records.len() {
        None
    } else if records[i].id == id {
        Some(i)
    } else {
        position_from(records, id, i + 1)
    }
}

/// The position of the record with this id.
pub open spec fn position(records: Seq<TrafficModel>, id: u64) -> Option<int> {
    position_from(records, id, 0)
}

/// No two records have the same id.
pub open spec fn distinct(records: Seq<TrafficModel>) -> bool {
    forall|i: int, j: int|
        0 <= i < j < records.len() ==> (#[trigger] records[i]).id != (#[trigger] records[j]).id
}

/// The records once one is put in: it takes the place of the one with its id, or comes last, and
/// the oldest leaves where there are more than `capacity`.
pub open spec fn upserted(records: Seq<TrafficModel>, t: TrafficModel, capacity: int) -> Seq<
    TrafficModel,
> {
    match position(records, t.id) {
        Some(i) => records.update(i, t),
        None => {
            let more = records.push(t);
            if more.len() > capacity {
                more.subrange(1, more.len() as int)
            } else {
                more
            }
        },
    }
}

/// The latest records, newest first, at most `limit` of them.
pub open spec fn latest(records: Seq<TrafficModel>, limit: int) -> Seq<TrafficModel> {
    Seq::new(
        if records.len() < limit {
            records.len()
        } else {
            limit as nat
        },
        |i: int| records[records.len() - 1 - i],
    )
}

proof fn lemma_position_from(records: Seq<TrafficModel>, id: u64, i: int)
    requires
        0 <= i,
    ensures
        match position_from(records, id, i) {
            Some(k) => i <= k < records.len() && records[k].id == id && forall|j: int|
                i <= j < k ==> (#[trigger] records[j]).id != id,
            None => forall|j: int| i <= j < records.len() ==> (#[trigger] records[j]).id != id,
        },
    decreases records.len() - i,
{
    if i < records.len() && records[i].id != id {
        lemma_position_from(records, id, i + 1);
    }
}

impl CaptureStore {
    /// The largest number of records.
    pub closed spec fn limit(&self) -> int {
        self.capacity as int
    }

    /// The id that is handed out next.
    pub closed spec fn upcoming(&self) -> u64 {
        self.next_id
    }

    /// The records that were put in, in order, of which subscribers have not been told yet.
    pub closed spec fn untold(&self) -> Seq<TrafficModel> {
        traffic_models(self.events@)
    }

    /// The order and the records agree, no id is there twice, and there are not too many.
    pub closed spec fn wf(&self) -> bool {
        &&& self.capacity >= 1
        &&& self.order@.len() <= self.capacity
        &&& self.order@.no_duplicates()
        &&& forall|i: int|
            0 <= i < self.order@.len() ==> self.map@.dom().contains(#[trigger] self.order@[i])
                && self.map@[self.order@[i]].id == self.order@[i]
        &&& forall|id: u64| #[trigger]
            self.map@.dom().contains(id) ==> self.order@.contains(id)
    }

    proof fn lemma_position(&self, id: u64)
        requires
            self.wf(),
        ensures
            self.map@.dom().contains(id) == (position(self@, id) is Some),
            position(self@, id) matches Some(i) ==> 0 <= i < self@.len() && self.order@[i] == id
                && self@[i] == self.map@[id]@,
    {
        lemma_position_from(self@, id, 0);
        if self.map@.dom().contains(id) {
            let k = choose|k: int| 0 <= k < self.order@.len() && self.order@[k] == id;
            assert(self@[k].id == id);
        }
        if let Some(i) = position(self@, id) {
            assert(self.map@[self.order@[i]].id == self.order@[i]);
        }
    }

    /// A store holds no more records than its limit, and no id twice.
    pub proof fn law_records_are_bounded_and_distinct(&self)
        requires
            self.wf(),
        ensures
            1 <= self.limit(),
            self@.len() <= self.limit(),
            distinct(self@),
    {
        assert forall|i: int, j: int| 0 <= i < j < self@.len() implies (#[trigger] self@[i]).id != (
        #[trigger] self@[j]).id by {
            assert(self.map@[self.order@[i]].id == self.order@[i]);
            assert(self.map@[self.order@[j]].id == self.order@[j]);
        }
    }

    /// An empty store for `capacity` records, at least one.
    pub fn new(capacity: usize) -> (r: CaptureStore)
        ensures
            r.wf(),
            r@ == Seq::<TrafficModel>::empty(),
            r.limit() == if capacity >= 1 {
                capacity as int
            } else {
                1
            },
            r.upcoming() == 1,
            r.untold() == Seq::<TrafficModel>::empty(),
    {
        let r = CaptureStore {
            order: VecDeque::new(),
            map: HashMap::new(),
            next_id: 1,
            capacity: if capacity >= 1 {
                capacity
            } else {
                1
            },
            events: Vec::new(),
        };
        proof {
            assert(r@ =~= Seq::empty());
            assert(r.untold() =~= Seq::empty());
        }
        r
    }

    /// Hands out the next id.
    pub fn next_id(&mut self) -> (r: u64)
        requires
            old(self).wf(),
        ensures
            r == old(self).upcoming(),
            final(self).upcoming() == (r + 1) % 0x1_0000_0000_0000_0000,
            final(self).wf(),
            final(self)@ == old(self)@,
            final(self).limit() == old(self).limit(),
            final(self).untold() == old(self).untold(),
    {
        let id = self.next_id;
        self.next_id = if id == u64::MAX {
            0
        } else {
            id + 1
        };
        proof {
            assert(self@ =~= old(self)@);
        }
        id
    }

    /// Puts a record in: in the place of the one with its id, or as the newest. Subscribers are to
    /// be told of it.
    pub fn upsert(&mut self, traffic: Traffic)
        requires
            old(self).wf(),
        ensures
            final(self).wf(),
            final(self)@ == upserted(old(self)@, traffic@, old(self).limit()),
            final(self).limit() == old(self).limit(),
            final(self).upcoming() == old(self).upcoming(),
            final(self).untold() == old(self).untold().push(traffic@),
    {
        let id = traffic.id;
        let ghost before = *self;
        let ghost t = traffic;
        self.events.push(traffic.clone());
        proof {
            self.lemma_position(id);
        }
        if !self.map.contains_key(&id) {
            self.order.push_back(id);
            if self.order.len() > self.capacity {
                if let Some(oldest) = self.order.pop_front() {
                    self.map.remove(&oldest);
                }
            }
        }
        self.map.insert(id, traffic);
        proof {
            assert(self.untold() =~= before.untold().push(t@));
            let all = before.order@.push(id);
            if before.map@.dom().contains(id) {
                let i = position(before@, id)->0;
                assert(self@ =~= before@.update(i, t@));
            } else {
                assert(!before.order@.contains(id));
                assert forall|i: int, j: int| 0 <= i < j < all.len() implies all[i] != all[j] by {
                    if j == before.order@.len() {
                        assert(before.order@.contains(before.order@[i]));
                    }
                }
                let more = before@.push(t@);
                if all.len() > before.capacity {
                    assert(self.order@ =~= all.subrange(1, all.len() as int));
                    assert forall|k: int| 0 <= k < self.order@.len() implies self.order@[k] == all[k
                        + 1] by {}
                    assert(self@ =~= more.subrange(1, more.len() as int));
                } else {
                    assert(self.order@ =~= all);
                    assert(self@ =~= more);
                }
                assert forall|x: u64| #[trigger] self.map@.dom().contains(x) implies
                    self.order@.contains(x) by {
                    if x == id {
                        assert(self.order@[self.order@.len() - 1] == id);
                    } else {
                        assert(before.map@.dom().contains(x));
                        let k = choose|k: int|
                            0 <= k < before.order@.len() && before.order@[k] == x;
                        assert(all[k] == x);
                        if all.len() > before.capacity {
                            assert(k != 0);
                            assert(self.order@[k - 1] == x);
                        } else {
                            assert(self.order@[k] == x);
                        }
                    }
                }
            }
        }
    }

    /// Hands out the records of which subscribers have not been told yet, in the order in which
    /// they were put in.
    pub fn take_events(&mut self) -> (r: Vec<Traffic>)
        requires
            old(self).wf(),
        ensures
            traffic_models(r@) == old(self).untold(),
            final(self).untold() == Seq::<TrafficModel>::empty(),
            final(self).wf(),
            final(self)@ == old(self)@,
            final(self).limit() == old(self).limit(),
            final(self).upcoming() == old(self).upcoming(),
    {
        let mut out: Vec<Traffic> = Vec::new();
        std::mem::swap(&mut out, &mut self.events);
        proof {
            assert(self@ =~= old(self)@);
            assert(self.untold() =~= Seq::empty());
        }
        out
    }

    /// The latest records, newest first, at most `limit` of them.
    pub fn list(&self, limit: usize) -> (r: Vec<Traffic>)
        requires
            self.wf(),
        ensures
            traffic_models(r@) == latest(self@, limit as int),
    {
        let mut out: Vec<Traffic> = Vec::new();
        let n: usize = if self.order.len() < limit {
            self.order.len()
        } else {
            limit
        };
        let mut i: usize = 0;
        proof {
            assert(traffic_models(out@) =~= latest(self@, limit as int).take(0));
        }
        while i < n
            invariant
                self.wf(),
                i <= n <= self.order@.len(),
                n == latest(self@, limit as int).len(),
                traffic_models(out@) == latest(self@, limit as int).take(i as int),
            decreases n - i,
        {
            let ghost outs = traffic_models(out@);
            let id: u64 = self.order[self.order.len() - 1 - i];
            proof {
                assert(id == self.order@[self.order@.len() - 1 - i]);
            }
            if let Some(t) = self.map.get(&id) {
                out.push(t.clone());
                proof {
                    assert(traffic_models(out@) =~= outs.push(t@));
                }
            }
            i += 1;
            proof {
                assert(traffic_models(out@) =~= latest(self@, limit as int).take(i as int));
            }
        }
        proof {
            assert(latest(self@, limit as int).take(n as int) =~= latest(self@, limit as int));
        }
        out
    }

    /// The record with this id.
    pub fn get(&self, id: u64) -> (r: Option<Traffic>)
        requires
            self.wf(),
        ensures
            match r {
                Some(t) => position(self@, id) matches Some(i) && t@ == self@[i],
                None => position(self@, id) is None,
            },
    {
        proof {
            self.lemma_position(id);
        }
        match self.map.get(&id) {
            Some(t) => Some(t.clone()),
            None => None,
        }
    }

    /// The number of records.
    pub fn len(&self) -> (r: usize)
        requires
            self.wf(),
        ensures
            r == self@.len(),
    {
        self.order.len()
    }

    /// Whether there are no records.
    pub fn is_empty(&self) -> (r: bool)
        requires
            self.wf(),
        ensures
            r == (self@.len() == 0),
    {
        self.order.len() == 0
    }

    /// Drops all records. Ids go on from where they are.
    pub fn clear(&mut self)
        requires
            old(self).wf(),
        ensures
            final(self).wf(),
            final(self)@ == Seq::<TrafficModel>::empty(),
            final(self).limit() == old(self).limit(),
            final(self).upcoming() == old(self).upcoming(),
            final(self).untold() == old(self).untold(),
    {
        self.order.clear();
        self.map.clear();
        proof {
            assert(self@ =~= Seq::empty());
        }
    }
}

/// What a list of records holds.
pub open spec fn traffic_models(v: Seq<Traffic>) -> Seq<TrafficModel> {
    Seq::new(v.len(), |i: int| v[i]@)
}

// ---- laws ----

/// A record that was put in is found by its id, as it was put in.
pub proof fn law_upserted_is_found(records: Seq<TrafficModel>, t: TrafficModel, capacity: int)
    requires
        1 <= capacity,
        records.len() <= capacity,
        distinct(records),
    ensures
        ({
            let after = upserted(records, t, capacity);
            position(after, t.id) matches Some(i) && after[i] == t
        }),
        distinct(upserted(records, t, capacity)),
        upserted(records, t, capacity).len() <= capacity,
{
    let after = upserted(records, t, capacity);
    lemma_position_from(records, t.id, 0);
    lemma_position_from(after, t.id, 0);
    match position(records, t.id) {
        Some(i) => {
            assert(after[i].id == t.id);
            assert forall|a: int, b: int| 0 <= a < b < after.len() implies (#[trigger] after[a]).id
                != (#[trigger] after[b]).id by {
                assert(records[a].id != records[b].id);
            }
        },
        None => {
            assert(after[after.len() - 1] == t);
            let shift = if records.len() + 1 > capacity {
                1int
            } else {
                0
            };
            assert forall|a: int, b: int| 0 <= a < b < after.len() implies (#[trigger] after[a]).id
                != (#[trigger] after[b]).id by {
                assert(after[a] == records[a + shift]);
                if b + shift < records.len() {
                    assert(after[b] == records[b + shift]);
                }
            }
        },
    }
}

/// Putting a record in keeps every other record, but for the oldest one where the store was full.
pub proof fn law_upsert_keeps_the_others(
    records: Seq<TrafficModel>,
    t: TrafficModel,
    capacity: int,
    k: int,
)
    requires
        records.len() <= capacity,
        0 <= k < records.len(),
        records[k].id != t.id,
        k > 0 || records.len() < capacity || position(records, t.id) is Some,
    ensures
        upserted(records, t, capacity).contains(records[k]),
{
    let after = upserted(records, t, capacity);
    lemma_position_from(records, t.id, 0);
    match position(records, t.id) {
        Some(i) => {
            assert(after[k] == records[k]);
        },
        None => {
            if records.len() + 1 > capacity {
                assert(after[k - 1] == records[k]);
            } else {
                assert(after[k] == records[k]);
            }
        },
    }
}

/// A new record is the first that is listed.
pub proof fn law_newest_is_listed_first(
    records: Seq<TrafficModel>,
    t: TrafficModel,
    capacity: int,
    limit: int,
)
    requires
        1 <= capacity,
        records.len() <= capacity,
        position(records, t.id) is None,
        1 <= limit,
    ensures
        latest(upserted(records, t, capacity), limit).len() > 0,
        latest(upserted(records, t, capacity), limit)[0] == t,
{
}

/// Putting a record in twice is putting the second one in: it stays in its place.
pub proof fn law_second_upsert_replaces(
    records: Seq<TrafficModel>,
    a: TrafficModel,
    b: TrafficModel,
    capacity: int,
)
    requires
        1 <= capacity,
        records.len() <= capacity,
        distinct(records),
        a.id == b.id,
    ensures
        upserted(upserted(records, a, capacity), b, capacity) == upserted(records, b, capacity),
{
    law_upserted_is_found(records, a, capacity);
    let once = upserted(records, a, capacity);
    lemma_position_from(records, a.id, 0);
    lemma_position_from(once, a.id, 0);
    let k = position(once, a.id)->0;
    match position(records, a.id) {
        Some(i) => {
            assert(once[i].id == a.id);
            if k < i {
                assert(once[k].id != once[i].id);
            }
            if i < k {
                assert(once[i].id != once[k].id);
            }
            assert(once.update(k, b) =~= records.update(i, b));
        },
        None => {
            let last = once.len() - 1;
            assert(once[last] == a);
            if k < last {
                assert(once[k].id != once[last].id);
            }
            assert(once.update(k, b) =~= upserted(records, b, capacity));
        },
    }
}

/// Seen newest first, a record whose id is there leaves the ids in their order, and any other comes
/// in front of the records, of which the first `capacity` stay.
pub proof fn law_upsert_as_listed(records: Seq<TrafficModel>, t: TrafficModel, capacity: int)
    requires
        1 <= capacity,
        records.len() <= capacity,
    ensures
        ({
            let before = latest(records, records.len() as int);
            let after = latest(upserted(records, t, capacity), capacity);
            match position(records, t.id) {
                Some(_) => after.len() == before.len() && forall|i: int|
                    0 <= i < after.len() ==> (#[trigger] after[i]).id == before[i].id,
                None => after == if records.len() < capacity {
                    seq![t] + before
                } else {
                    (seq![t] + before).take(capacity)
                },
            }
        }),
{
    lemma_position_from(records, t.id, 0);
    let before = latest(records, records.len() as int);
    let after = latest(upserted(records, t, capacity), capacity);
    match position(records, t.id) {
        Some(i) => {
            assert(upserted(records, t, capacity).len() == records.len());
        },
        None => {
            if records.len() < capacity {
                assert(after =~= seq![t] + before);
            } else {
                assert(after =~= (seq![t] + before).take(capacity));
            }
        },
    }
}

/// Of a body, what fits in the limit is kept: all of it where it is no longer, and what follows the
/// limit makes no difference.
pub proof fn law_preview_is_the_start(bytes: Seq<u8>, more: Seq<u8>, limit: int)
    ensures
        bytes.len() <= limit ==> preview(bytes, limit) == text::lossy_utf8(bytes),
        preview(bytes + more, bytes.len() as int) == text::lossy_utf8(bytes),
{
    assert(bytes.take(bytes.len() as int) =~= bytes);
    assert((bytes + more).take(bytes.len() as int) =~= bytes);
}

/// What has elapsed since the start is added to it to give the present time. A clock that went back
/// gives nothing.
pub proof fn law_elapsed_time_is_added(start: u64, now: u64)
    ensures
        start <= now ==> start + elapsed(start, now) == now,
        now < start ==> elapsed(start, now) == 0,
{
}

/// The records are listed from the latest to the oldest, as many as were asked for.
pub proof fn law_records_are_listed_backwards(
    records: Seq<TrafficModel>,
    t: TrafficModel,
    limit: int,
)
    requires
        0 <= limit,
    ensures
        latest(records.push(t), limit + 1) == seq![t] + latest(records, limit),
        latest(records, 0).len() == 0,
{
    assert(latest(records.push(t), limit + 1) =~= seq![t] + latest(records, limit));
}

/// The record of an exchange that has begun tells who asked for what, and nothing of an answer.
pub proof fn law_begun_record_tells_the_request(
    id: u64,
    protocol: Seq<char>,
    method: Seq<char>,
    url: Seq<char>,
    host: Seq<char>,
    client: Seq<char>,
    start_time: u64,
)
    ensures
        ({
            let t = begun(id, protocol, method, url, host, client, start_time);
            &&& t.id == id && t.start_time == start_time
            &&& t.protocol == protocol && t.method == method && t.url == url
            &&& t.host == host && t.client == client
            &&& t.status is None && t.duration_ms is None && t.error is None
            &&& t.req_body is None && t.res_body is None
            &&& t.req_body_size == 0 && t.res_body_size == 0 && !t.res_body_truncated
            &&& t.req_headers.len() == 0 && t.res_headers.len() == 0
            &&& t.rules.len() == 0 && t.ws_messages.len() == 0
        }),
{
}

/// A reading of the clock is taken as it is, up to what 64 bits can hold.
pub proof fn law_reading_is_taken_as_it_is(reading: u128)
    ensures
        reading <= u64::MAX ==> timestamp(Some(reading)) == reading,
        timestamp(None) == 0,
{
}

} // verus!
