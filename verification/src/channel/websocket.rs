//! The WebSocket endpoint, which speaks the Phoenix Channels V2 protocol.
//!
//! A message is a JSON array of five items: the reference of the join, the reference of the
//! message, the topic, the event and the payload.

use serde_json::Value;
use vstd::prelude::*;
use vstd::utf8::*;

use crate::channel::channels;
use crate::channel::channels::{
    ChannelReply, JoinError, RawHandleResult, ReplyView, Socket, SocketView,
};
use crate::channel::server;
use crate::channel::server::{ChannelServer, JoinStep};
use crate::channel::transport;
use crate::channel::transport::Request;
use crate::json;
use crate::json::Json;
use crate::process::{Pid, PidView};
use crate::table;
use crate::table::Table;
use crate::text;

verus! {

/// What a message read from the wire stands for.
pub struct DecodedView {
    /// The reference of the join.
    pub join_ref: Option<Seq<char>>,
    /// The reference by which a reply is matched.
    pub msg_ref: Option<Seq<char>>,
    /// The topic.
    pub topic: Seq<char>,
    /// The event.
    pub event: Seq<char>,
    /// The payload as it stands on the wire.
    pub payload: Seq<u8>,
}

/// A message read from the wire.
pub struct DecodedMessage {
    /// The reference of the join.
    pub join_ref: Option<String>,
    /// The reference by which a reply is matched.
    pub msg_ref: Option<String>,
    /// The topic.
    pub topic: String,
    /// The event.
    pub event: String,
    /// The payload as it stands on the wire.
    pub payload: Vec<u8>,
}

impl View for DecodedMessage {
    type V = DecodedView;

    open spec fn view(&self) -> DecodedView {
        DecodedView {
            join_ref: text::str_option(self.join_ref),
            msg_ref: text::str_option(self.msg_ref),
            topic: self.topic@,
            event: self.event@,
            payload: self.payload@,
        }
    }
}

/// The view of an optional string slice.
pub open spec fn slice_option(s: Option<&str>) -> Option<Seq<char>> {
    match s {
        Some(t) => Some(t@),
        None => None,
    }
}

/// The string as a slice.
pub fn as_slice(s: &Option<String>) -> (r: Option<&str>)
    ensures
        slice_option(r) == text::str_option(*s),
{
    match s {
        Some(t) => Some(t.as_str()),
        None => None,
    }
}

/// Turns messages into bytes of the wire and back.
pub trait Serializer {
    /// The message that some bytes are.
    spec fn decoded(&self, data: Seq<u8>) -> Option<DecodedView>;

    /// The bytes of a reply.
    spec fn reply_bytes(
        &self,
        join_ref: Option<Seq<char>>,
        msg_ref: Option<Seq<char>>,
        topic: Seq<char>,
        status: Seq<char>,
        payload: Seq<u8>,
    ) -> Seq<u8>;

    /// The bytes of an event for the client.
    spec fn push_bytes(
        &self,
        join_ref: Option<Seq<char>>,
        topic: Seq<char>,
        event: Seq<char>,
        payload: Seq<u8>,
    ) -> Seq<u8>;

    /// Reads a message.
    fn decode(&self, data: &[u8]) -> (r: Option<DecodedMessage>)
        ensures
            match r {
                Some(m) => self.decoded(data@) == Some(m@),
                None => self.decoded(data@) is None,
            },
    ;

    /// Writes a reply.
    fn encode_reply(
        &self,
        join_ref: Option<&str>,
        msg_ref: Option<&str>,
        topic: &str,
        status: &str,
        payload: &[u8],
    ) -> (r: Vec<u8>)
        ensures
            r@ == self.reply_bytes(
                slice_option(join_ref),
                slice_option(msg_ref),
                topic@,
                status@,
                payload@,
            ),
    ;

    /// Writes an event for the client.
    fn encode_push(&self, join_ref: Option<&str>, topic: &str, event: &str, payload: &[u8]) -> (r:
        Vec<u8>)
        ensures
            r@ == self.push_bytes(slice_option(join_ref), topic@, event@, payload@),
    ;

    /// Writes a broadcast event.
    fn fastlane(&self, topic: &str, event: &str, payload: &[u8]) -> (r: Vec<u8>)
        ensures
            r@ == self.push_bytes(None, topic@, event@, payload@),
    {
        self.encode_push(None, topic, event, payload)
    }
}

/// The serializer of the Phoenix Channels V2 protocol.
#[derive(Debug, Clone, Copy)]
pub struct V2JsonSerializer;

/// The message that five JSON items are.
pub open spec fn v2_message(items: Seq<Json>) -> Option<DecodedView> {
    if items.len() == 5 && items[2] is Text && items[3] is Text {
        Some(
            DecodedView {
                join_ref: json::as_text(items[0]),
                msg_ref: json::as_text(items[1]),
                topic: items[2]->Text_0,
                event: items[3]->Text_0,
                payload: encode_utf8(json::json_text(items[4])),
            },
        )
    } else {
        None
    }
}

/// The message that some bytes are.
pub open spec fn v2_decoded(data: Seq<u8>) -> Option<DecodedView> {
    if valid_utf8(data) {
        match json::json_parsed(data) {
            Some(Json::Array(items)) => v2_message(items),
            _ => None,
        }
    } else {
        None
    }
}

/// The payload as a JSON value, or `other` if it is none.
pub open spec fn payload_json(payload: Seq<u8>, other: Json) -> Json {
    match json::json_parsed(payload) {
        Some(j) => j,
        None => other,
    }
}

/// The payload of a reply.
pub open spec fn reply_json(status: Seq<char>, response: Json) -> Json {
    Json::Object(
        Map::<Seq<char>, Json>::empty().insert("status"@, Json::Text(status)).insert(
            "response"@,
            response,
        ),
    )
}

/// The items of a reply.
pub open spec fn v2_reply(
    join_ref: Option<Seq<char>>,
    msg_ref: Option<Seq<char>>,
    topic: Seq<char>,
    status: Seq<char>,
    payload: Seq<u8>,
) -> Json {
    Json::Array(
        seq![
            json::optional(join_ref),
            json::optional(msg_ref),
            Json::Text(topic),
            Json::Text("phx_reply"@),
            reply_json(status, payload_json(payload, json::no_fields())),
        ],
    )
}

/// The payload of an event: bytes that are no JSON are wrapped in an object.
pub open spec fn v2_payload(payload: Seq<u8>) -> Json {
    payload_json(payload, json::field("data"@, json::bytes_json(payload)))
}

/// The items of an event for the client.
pub open spec fn v2_push(
    join_ref: Option<Seq<char>>,
    topic: Seq<char>,
    event: Seq<char>,
    payload: Seq<u8>,
) -> Json {
    Json::Array(
        seq![
            json::optional(join_ref),
            Json::Null,
            Json::Text(topic),
            Json::Text(event),
            v2_payload(payload),
        ],
    )
}

fn five(a: Value, b: Value, c: Value, d: Value, e: Value) -> (r: Value)
    ensures
        json::json_of(r) == Json::Array(
            seq![
                json::json_of(a),
                json::json_of(b),
                json::json_of(c),
                json::json_of(d),
                json::json_of(e),
            ],
        ),
{
    let ghost want = seq![
        json::json_of(a),
        json::json_of(b),
        json::json_of(c),
        json::json_of(d),
        json::json_of(e),
    ];
    let mut items: Vec<Value> = Vec::new();
    items.push(a);
    items.push(b);
    items.push(c);
    items.push(d);
    items.push(e);
    assert(json::json_seq(items@) =~= want);
    json::array(items)
}

fn reply_object(status: &str, response: Value) -> (r: Value)
    ensures
        json::json_of(r) == reply_json(status@, json::json_of(response)),
{
    let mut r = json::object_with("status", json::of_string(status.to_owned()));
    json::set_field(&mut r, "response", response);
    r
}

fn owned(s: Option<&str>) -> (r: Option<String>)
    ensures
        text::str_option(r) == slice_option(s),
{
    match s {
        Some(t) => Some(t.to_owned()),
        None => None,
    }
}

impl Serializer for V2JsonSerializer {
    open spec fn decoded(&self, data: Seq<u8>) -> Option<DecodedView> {
        v2_decoded(data)
    }

    open spec fn reply_bytes(
        &self,
        join_ref: Option<Seq<char>>,
        msg_ref: Option<Seq<char>>,
        topic: Seq<char>,
        status: Seq<char>,
        payload: Seq<u8>,
    ) -> Seq<u8> {
        encode_utf8(json::json_text(v2_reply(join_ref, msg_ref, topic, status, payload)))
    }

    open spec fn push_bytes(
        &self,
        join_ref: Option<Seq<char>>,
        topic: Seq<char>,
        event: Seq<char>,
        payload: Seq<u8>,
    ) -> Seq<u8> {
        encode_utf8(json::json_text(v2_push(join_ref, topic, event, payload)))
    }

    fn decode(&self, data: &[u8]) -> (r: Option<DecodedMessage>) {
        if crate::message::text_of(data).is_none() {
            return None;
        }
        let value = match json::parse(data) {
            Some(v) => v,
            None => {
                return None;
            },
        };
        let items = match json::items(&value) {
            Some(s) => s,
            None => {
                return None;
            },
        };
        if items.len() != 5 {
            return None;
        }
        let ghost js = json::json_seq(items@);
        assert(js[0] == json::json_of(items@[0]));
        assert(js[1] == json::json_of(items@[1]));
        assert(js[2] == json::json_of(items@[2]));
        assert(js[3] == json::json_of(items@[3]));
        assert(js[4] == json::json_of(items@[4]));
        let topic = match json::string(&items[2]) {
            Some(s) => s.to_owned(),
            None => {
                return None;
            },
        };
        let event = match json::string(&items[3]) {
            Some(s) => s.to_owned(),
            None => {
                return None;
            },
        };
        let payload = json::text(&items[4]);
        Some(
            DecodedMessage {
                join_ref: owned(json::string(&items[0])),
                msg_ref: owned(json::string(&items[1])),
                topic,
                event,
                payload: crate::wire::bytes_of(payload.as_str().as_bytes()),
            },
        )
    }

    fn encode_reply(
        &self,
        join_ref: Option<&str>,
        msg_ref: Option<&str>,
        topic: &str,
        status: &str,
        payload: &[u8],
    ) -> (r: Vec<u8>)
        ensures
            json::is_plain(
                payload_json(payload@, json::no_fields()),
                (json::nesting_limit() - 2) as nat,
            ) ==> v2_decoded(r@) == Some(
                (DecodedView {
                    join_ref: slice_option(join_ref),
                    msg_ref: slice_option(msg_ref),
                    topic: topic@,
                    event: "phx_reply"@,
                    payload: encode_utf8(
                        json::json_text(
                            reply_json(status@, payload_json(payload@, json::no_fields())),
                        ),
                    ),
                }),
            ),
    {
        let response = match json::parse(payload) {
            Some(v) => v,
            None => json::empty_object(),
        };
        let msg = five(
            json::optional_string(join_ref),
            json::optional_string(msg_ref),
            json::of_string(topic.to_owned()),
            json::of_string("phx_reply".to_owned()),
            reply_object(status, response),
        );
        let t = json::text(&msg);
        proof {
            broadcast use encode_utf8_valid_utf8;

            let p = payload_json(payload@, json::no_fields());
            let d = (json::nesting_limit() - 2) as nat;
            if json::is_plain(p, d) {
                let items = v2_reply(
                    slice_option(join_ref),
                    slice_option(msg_ref),
                    topic@,
                    status@,
                    payload@,
                )->Array_0;
                assert(json::is_plain(reply_json(status@, p), (d + 1) as nat)) by {
                    let fields = reply_json(status@, p)->Object_0;
                    assert forall|k: Seq<char>| fields.contains_key(k) implies json::is_plain(
                        #[trigger] fields[k],
                        d,
                    ) by {
                        assert(k == "status"@ || k == "response"@);
                    }
                }
                assert forall|i: int| 0 <= i < items.len() implies json::is_plain(
                    #[trigger] items[i],
                    (d + 1) as nat,
                ) by {}
                assert(json::is_plain(Json::Array(items), (d + 2) as nat));
            }
        }
        crate::wire::bytes_of(t.as_str().as_bytes())
    }

    fn encode_push(&self, join_ref: Option<&str>, topic: &str, event: &str, payload: &[u8]) -> (r:
        Vec<u8>)
        ensures
            json::is_plain(v2_payload(payload@), (json::nesting_limit() - 1) as nat)
                ==> v2_decoded(r@) == Some(
                (DecodedView {
                    join_ref: slice_option(join_ref),
                    msg_ref: None,
                    topic: topic@,
                    event: event@,
                    payload: encode_utf8(json::json_text(v2_payload(payload@))),
                }),
            ),
    {
        let body = match json::parse(payload) {
            Some(v) => v,
            None => json::object_with("data", json::of_bytes(payload)),
        };
        let msg = five(
            json::optional_string(join_ref),
            json::null(),
            json::of_string(topic.to_owned()),
            json::of_string(event.to_owned()),
            body,
        );
        let t = json::text(&msg);
        proof {
            broadcast use encode_utf8_valid_utf8;

            let d = (json::nesting_limit() - 1) as nat;
            if json::is_plain(v2_payload(payload@), d) {
                let items = v2_push(slice_option(join_ref), topic@, event@, payload@)->Array_0;
                assert forall|i: int| 0 <= i < items.len() implies json::is_plain(
                    #[trigger] items[i],
                    d,
                ) by {}
                assert(json::is_plain(Json::Array(items), (d + 1) as nat));
            }
        }
        crate::wire::bytes_of(t.as_str().as_bytes())
    }
}

/// What a message of the protocol stands for.
pub struct PhxView {
    /// The reference of the join.
    pub join_ref: Option<Seq<char>>,
    /// The reference by which a reply is matched.
    pub msg_ref: Option<Seq<char>>,
    /// The topic.
    pub topic: Seq<char>,
    /// The event.
    pub event: Seq<char>,
    /// The payload.
    pub payload: Json,
}

/// A message of the protocol.
pub struct PhxMessage {
    /// The reference of the join.
    pub join_ref: Option<String>,
    /// The reference by which a reply is matched.
    pub msg_ref: Option<String>,
    /// The topic.
    pub topic: String,
    /// The event.
    pub event: String,
    /// The payload.
    pub payload: Value,
}

impl View for PhxMessage {
    type V = PhxView;

    open spec fn view(&self) -> PhxView {
        PhxView {
            join_ref: text::str_option(self.join_ref),
            msg_ref: text::str_option(self.msg_ref),
            topic: self.topic@,
            event: self.event@,
            payload: json::json_of(self.payload),
        }
    }
}

/// The array that a message is.
pub open spec fn phx_json(m: PhxView) -> Json {
    Json::Array(
        seq![
            json::optional(m.join_ref),
            json::optional(m.msg_ref),
            Json::Text(m.topic),
            Json::Text(m.event),
            m.payload,
        ],
    )
}

/// The message that a value is.
pub open spec fn phx_of(j: Json) -> Option<PhxView> {
    match j {
        Json::Array(items) => if items.len() == 5 && items[2] is Text && items[3] is Text {
            Some(
                PhxView {
                    join_ref: json::as_text(items[0]),
                    msg_ref: json::as_text(items[1]),
                    topic: items[2]->Text_0,
                    event: items[3]->Text_0,
                    payload: items[4],
                },
            )
        } else {
            None
        },
        _ => None,
    }
}

/// A message reads back from the array that it is.
pub proof fn law_message_reads_back(m: PhxView)
    ensures
        phx_of(phx_json(m)) == Some(m),
{
}

impl PhxMessage {
    /// A message without references.
    pub fn new(topic: &str, event: &str, payload: Value) -> (r: Self)
        ensures
            r@ == (PhxView {
                join_ref: None,
                msg_ref: None,
                topic: topic@,
                event: event@,
                payload: json::json_of(payload),
            }),
    {
        PhxMessage {
            join_ref: None,
            msg_ref: None,
            topic: topic.to_owned(),
            event: event.to_owned(),
            payload,
        }
    }

    /// The message with the reference of a join.
    pub fn with_join_ref(self, join_ref: &str) -> (r: Self)
        ensures
            r@ == (PhxView { join_ref: Some(join_ref@), ..self@ }),
    {
        PhxMessage { join_ref: Some(join_ref.to_owned()), ..self }
    }

    /// The message with a reference.
    pub fn with_msg_ref(self, msg_ref: &str) -> (r: Self)
        ensures
            r@ == (PhxView { msg_ref: Some(msg_ref@), ..self@ }),
    {
        PhxMessage { msg_ref: Some(msg_ref.to_owned()), ..self }
    }

    /// Reads a message: an array of five items, of which topic and event are strings.
    pub fn from_json(value: &Value) -> (r: Option<Self>)
        ensures
            match r {
                Some(m) => phx_of(json::json_of(*value)) == Some(m@),
                None => phx_of(json::json_of(*value)) is None,
            },
    {
        let items = match json::items(value) {
            Some(s) => s,
            None => {
                return None;
            },
        };
        if items.len() != 5 {
            return None;
        }
        let ghost js = json::json_seq(items@);
        assert(js[0] == json::json_of(items@[0]));
        assert(js[1] == json::json_of(items@[1]));
        assert(js[2] == json::json_of(items@[2]));
        assert(js[3] == json::json_of(items@[3]));
        assert(js[4] == json::json_of(items@[4]));
        let topic = match json::string(&items[2]) {
            Some(s) => s.to_owned(),
            None => {
                return None;
            },
        };
        let event = match json::string(&items[3]) {
            Some(s) => s.to_owned(),
            None => {
                return None;
            },
        };
        Some(
            PhxMessage {
                join_ref: owned(json::string(&items[0])),
                msg_ref: owned(json::string(&items[1])),
                topic,
                event,
                payload: json::copy(&items[4]),
            },
        )
    }

    /// The array that the message is.
    pub fn to_json(&self) -> (r: Value)
        ensures
            json::json_of(r) == phx_json(self@),
    {
        five(
            json::optional_string(as_slice(&self.join_ref)),
            json::optional_string(as_slice(&self.msg_ref)),
            json::of_string(self.topic.clone()),
            json::of_string(self.event.clone()),
            json::copy(&self.payload),
        )
    }

    /// A reply.
    pub fn reply(
        join_ref: Option<String>,
        msg_ref: Option<String>,
        topic: &str,
        status: &str,
        response: Value,
    ) -> (r: Self)
        ensures
            r@ == (PhxView {
                join_ref: text::str_option(join_ref),
                msg_ref: text::str_option(msg_ref),
                topic: topic@,
                event: "phx_reply"@,
                payload: reply_json(status@, json::json_of(response)),
            }),
    {
        PhxMessage {
            join_ref,
            msg_ref,
            topic: topic.to_owned(),
            event: "phx_reply".to_owned(),
            payload: reply_object(status, response),
        }
    }

    /// A reply that reports success.
    pub fn ok_reply(
        join_ref: Option<String>,
        msg_ref: Option<String>,
        topic: &str,
        response: Value,
    ) -> (r: Self)
        ensures
            r@ == (PhxView {
                join_ref: text::str_option(join_ref),
                msg_ref: text::str_option(msg_ref),
                topic: topic@,
                event: "phx_reply"@,
                payload: reply_json("ok"@, json::json_of(response)),
            }),
    {
        PhxMessage::reply(join_ref, msg_ref, topic, "ok", response)
    }

    /// A reply that reports an error, with its reason.
    pub fn error_reply(
        join_ref: Option<String>,
        msg_ref: Option<String>,
        topic: &str,
        reason: &str,
    ) -> (r: Self)
        ensures
            r@ == (PhxView {
                join_ref: text::str_option(join_ref),
                msg_ref: text::str_option(msg_ref),
                topic: topic@,
                event: "phx_reply"@,
                payload: reply_json("error"@, json::field("reason"@, Json::Text(reason@))),
            }),
    {
        let response = json::object_with("reason", json::of_string(reason.to_owned()));
        PhxMessage::reply(join_ref, msg_ref, topic, "error", response)
    }

    /// An event for the client.
    pub fn push(join_ref: Option<String>, topic: &str, event: &str, payload: Value) -> (r: Self)
        ensures
            r@ == (PhxView {
                join_ref: text::str_option(join_ref),
                msg_ref: None,
                topic: topic@,
                event: event@,
                payload: json::json_of(payload),
            }),
    {
        PhxMessage {
            join_ref,
            msg_ref: None,
            topic: topic.to_owned(),
            event: event.to_owned(),
            payload,
        }
    }
}

/// The serializers by version. `S` stands for one of them.
pub struct SerializerRegistry<S> {
    serializers: Table<String, S>,
    default_version: String,
}

impl<S> SerializerRegistry<S> {
    /// The registry's invariant.
    pub closed spec fn wf(&self) -> bool {
        self.serializers.wf()
    }

    /// The serializers by version.
    pub closed spec fn known(&self) -> Map<Seq<char>, S> {
        self.serializers@
    }

    /// The version that is taken where none is asked for.
    pub closed spec fn fallback(&self) -> Seq<char> {
        self.default_version@
    }

    /// A registry of the V2 serializer, which is the default.
    pub fn new(v2: S) -> (r: Self)
        ensures
            r.wf(),
            r.known() == Map::<Seq<char>, S>::empty().insert("2.0.0"@, v2),
            r.fallback() == "2.0.0"@,
    {
        let mut serializers: Table<String, S> = Table::new();
        serializers.insert("2.0.0".to_owned(), v2);
        SerializerRegistry { serializers, default_version: "2.0.0".to_owned() }
    }

    /// Adds a serializer for a version, in place of the one it had.
    pub fn register(self, version: &str, serializer: S) -> (r: Self)
        requires
            self.wf(),
        ensures
            r.wf(),
            r.known() == self.known().insert(version@, serializer),
            r.fallback() == self.fallback(),
    {
        let mut s = self;
        s.serializers.insert(version.to_owned(), serializer);
        s
    }

    /// Sets the version that is taken where none is asked for.
    pub fn default_version(self, version: &str) -> (r: Self)
        requires
            self.wf(),
        ensures
            r.wf(),
            r.known() == self.known(),
            r.fallback() == version@,
    {
        SerializerRegistry { default_version: version.to_owned(), ..self }
    }

    /// The serializer that a version gets: its own, else the default's. `None` stands for the
    /// V2 serializer, where the default has none either.
    pub open spec fn chosen(&self, version: Option<Seq<char>>) -> Option<S> {
        let v = match version {
            Some(v) => v,
            None => self.fallback(),
        };
        if self.known().contains_key(v) {
            Some(self.known()[v])
        } else if self.known().contains_key(self.fallback()) {
            Some(self.known()[self.fallback()])
        } else {
            None
        }
    }

    /// The serializer for a version.
    pub fn get(&self, version: Option<&str>) -> (r: Option<&S>)
        requires
            self.wf(),
        ensures
            match r {
                Some(s) => self.chosen(slice_option(version)) == Some(*s),
                None => self.chosen(slice_option(version)) is None,
            },
    {
        let key = match version {
            Some(v) => v.to_owned(),
            None => self.default_version.clone(),
        };
        match self.serializers.get(&key) {
            Some(s) => Some(s),
            None => self.serializers.get(&self.default_version),
        }
    }

    /// The versions that have a serializer.
    pub fn versions(&self) -> (r: Vec<String>)
        requires
            self.wf(),
        ensures
            table::views(r@).to_set() == self.known().dom(),
            table::views(r@).no_duplicates(),
    {
        let mut out: Vec<String> = Vec::new();
        let rows = &self.serializers.rows;
        let mut i: usize = 0;
        while i < rows.len()
            invariant
                i <= rows@.len(),
                rows@ == self.serializers.rows@,
                out@.len() == i,
                forall|j: int| 0 <= j < i ==> #[trigger] out@[j]@ == rows@[j].0@,
            decreases rows@.len() - i,
        {
            out.push(rows[i].0.clone());
            i = i + 1;
        }
        proof {
            let names = table::views(out@);
            assert forall|i: int, j: int| 0 <= i < names.len() && 0 <= j < names.len() && i
                != j implies names[i] != names[j] by {
                assert(names[i] == rows@[i].0@);
                assert(names[j] == rows@[j].0@);
            }
            assert forall|k: Seq<char>| names.to_set().contains(k) == self.known().contains_key(
                k,
            ) by {
                if names.to_set().contains(k) {
                    let i = choose|i: int| 0 <= i < names.len() && names[i] == k;
                    assert(names[i] == rows@[i].0@);
                    table::lemma_row(rows@, i);
                }
                if self.known().contains_key(k) {
                    let i = table::lemma_key(rows@, k);
                    assert(names[i] == rows@[i].0@);
                }
            }
            assert(names.to_set() =~= self.known().dom());
        }
        out
    }
}

/// The configuration of the endpoint.
#[derive(Debug, Clone, Copy)]
pub struct WebSocketConfig {
    /// The size of the largest message, in bytes.
    pub max_message_size: usize,
    /// How long a connection may stay without a heartbeat, in seconds.
    pub heartbeat_timeout: u64,
}

impl Default for WebSocketConfig {
    fn default() -> (r: Self)
        ensures
            r.max_message_size == 65536,
            r.heartbeat_timeout == 60,
    {
        WebSocketConfig { max_message_size: 65536, heartbeat_timeout: 60 }
    }
}

/// An endpoint: its handlers, by the patterns of their topics, its configuration and its
/// serializers.
pub struct WebSocketEndpoint<S> {
    /// The patterns of the handlers' topics, in order.
    pub handlers: Vec<String>,
    /// The configuration.
    pub config: WebSocketConfig,
    /// The serializers.
    pub serializer_registry: SerializerRegistry<S>,
}

impl<S> WebSocketEndpoint<S> {
    /// An endpoint without handlers.
    pub fn new(v2: S) -> (r: Self)
        ensures
            r.handlers@ == Seq::<String>::empty(),
            r.config.max_message_size == 65536,
            r.config.heartbeat_timeout == 60,
            r.serializer_registry.wf(),
            r.serializer_registry.known() == Map::<Seq<char>, S>::empty().insert("2.0.0"@, v2),
            r.serializer_registry.fallback() == "2.0.0"@,
    {
        WebSocketEndpoint {
            handlers: Vec::new(),
            config: WebSocketConfig::default(),
            serializer_registry: SerializerRegistry::new(v2),
        }
    }

    /// Sets the configuration.
    pub fn config(self, config: WebSocketConfig) -> (r: Self)
        ensures
            r == (WebSocketEndpoint { config, ..self }),
    {
        WebSocketEndpoint { config, ..self }
    }

    /// Sets the serializers.
    pub fn serializer_registry(self, registry: SerializerRegistry<S>) -> (r: Self)
        ensures
            r == (WebSocketEndpoint { serializer_registry: registry, ..self }),
    {
        WebSocketEndpoint { serializer_registry: registry, ..self }
    }

    /// Sets a single serializer for all connections, whatever version they ask for.
    pub fn serializer(self, serializer: S) -> (r: Self)
        ensures
            r.handlers == self.handlers,
            r.config == self.config,
            r.serializer_registry.wf(),
            r.serializer_registry.known() == Map::<Seq<char>, S>::empty().insert(
                "default"@,
                serializer,
            ),
            r.serializer_registry.fallback() == "default"@,
            forall|version: Option<Seq<char>>| #[trigger]
                r.serializer_registry.chosen(version) == Some(serializer),
    {
        let mut serializers: Table<String, S> = Table::new();
        serializers.insert("default".to_owned(), serializer);
        let registry = SerializerRegistry { serializers, default_version: "default".to_owned() };
        WebSocketEndpoint { serializer_registry: registry, ..self }
    }

    /// Adds a handler for the topics that match a pattern.
    pub fn channel(self, pattern: String) -> (r: Self)
        ensures
            r.handlers@ == self.handlers@.push(pattern),
            r.config == self.config,
            r.serializer_registry == self.serializer_registry,
    {
        let mut e = self;
        e.handlers.push(pattern);
        e
    }

    /// The patterns of the handlers' topics.
    pub fn handlers(&self) -> (r: &Vec<String>)
        ensures
            *r == self.handlers,
    {
        &self.handlers
    }

    /// The serializers.
    pub fn registry(&self) -> (r: &SerializerRegistry<S>)
        ensures
            *r == self.serializer_registry,
    {
        &self.serializer_registry
    }

    /// The serializer for a version.
    pub fn get_serializer(&self, version: Option<&str>) -> (r: Option<&S>)
        requires
            self.serializer_registry.wf(),
        ensures
            match r {
                Some(s) => self.serializer_registry.chosen(slice_option(version)) == Some(*s),
                None => self.serializer_registry.chosen(slice_option(version)) is None,
            },
    {
        self.serializer_registry.get(version)
    }
}

/// A version without a serializer of its own gets the one of the default version.
pub proof fn law_unknown_version_gets_the_default<S>(registry: SerializerRegistry<S>, version: Seq<
    char,
>)
    requires
        !registry.known().contains_key(version),
    ensures
        registry.chosen(Some(version)) == registry.chosen(None),
{
}

/// The text cut at every `c`.
pub open spec fn pieces(s: Seq<char>, c: char) -> Seq<Seq<char>>
    decreases s.len(),
    via pieces_end
{
    match text::cut(s, c) {
        Some((a, b)) => seq![a] + pieces(b, c),
        None => seq![s],
    }
}

#[via_fn]
proof fn pieces_end(s: Seq<char>, c: char) {
    if s.contains(c) {
        let i = lemma_first(s, c);
        text::lemma_cut(s, c, i);
    }
}

proof fn lemma_first(s: Seq<char>, c: char) -> (i: int)
    requires
        s.contains(c),
    ensures
        text::first_at(s, c, i),
{
    s.index_of_first_ensures(c);
    let i = s.index_of_first(c)->0;
    assert(text::first_at(s, c, i));
    i
}

/// The parameters with those of one more pair: a pair without `=` is none.
pub open spec fn with_pair(params: Map<Seq<char>, Seq<char>>, pair: Seq<char>) -> Map<
    Seq<char>,
    Seq<char>,
> {
    match text::cut(pair, '=') {
        Some((key, value)) => params.insert(key, value),
        None => params,
    }
}

/// The parameters of some pairs: of two with the same key the last one counts.
pub open spec fn params_of(pairs: Seq<Seq<char>>) -> Map<Seq<char>, Seq<char>>
    decreases pairs.len(),
{
    if pairs.len() == 0 {
        Map::empty()
    } else {
        with_pair(params_of(pairs.drop_last()), pairs.last())
    }
}

/// The parameters of the query of a URI.
pub open spec fn query_params(uri: Seq<char>) -> Map<Seq<char>, Seq<char>> {
    match text::cut(uri, '?') {
        Some((_, query)) => params_of(pieces(query, '&')),
        None => Map::empty(),
    }
}

/// The view of a table of strings.
pub open spec fn string_table(t: Table<String, String>) -> Map<Seq<char>, Seq<char>> {
    t@.map_values(|s: String| s@)
}

fn add_pair(params: &mut Table<String, String>, pair: &str)
    requires
        old(params).wf(),
    ensures
        final(params).wf(),
        string_table(*final(params)) == with_pair(string_table(*old(params)), pair@),
{
    match text::split_once(pair, '=') {
        Some((key, value)) => {
            params.insert(key.to_owned(), value.to_owned());
            assert(string_table(*params) =~= string_table(*old(params)).insert(key@, value@));
        },
        None => {},
    }
}

/// The parameters of the query of a URI.
pub fn parse_query_params(uri: &str) -> (r: Table<String, String>)
    ensures
        r.wf(),
        string_table(r) == query_params(uri@),
{
    let mut params: Table<String, String> = Table::new();
    assert(string_table(params) =~= Map::<Seq<char>, Seq<char>>::empty());
    match text::split_once(uri, '?') {
        None => {},
        Some((_, query)) => {
            let mut rest = query;
            let ghost all = pieces(query@, '&');
            let ghost mut done = Seq::<Seq<char>>::empty();
            assert(done + pieces(rest@, '&') =~= all);
            loop
                invariant_except_break
                    params.wf(),
                    done + pieces(rest@, '&') == all,
                    string_table(params) == params_of(done),
                ensures
                    params.wf(),
                    string_table(params) == params_of(all),
                decreases rest@.len(),
            {
                match text::split_once(rest, '&') {
                    Some((pair, more)) => {
                        proof {
                            if rest@.contains('&') {
                                let i = lemma_first(rest@, '&');
                                text::lemma_cut(rest@, '&', i);
                            }
                            assert(done.push(pair@) + pieces(more@, '&') =~= done + (seq![pair@]
                                + pieces(more@, '&')));
                            assert(done.push(pair@).drop_last() =~= done);
                            done = done.push(pair@);
                        }
                        add_pair(&mut params, pair);
                        rest = more;
                    },
                    None => {
                        proof {
                            assert(done + seq![rest@] =~= done.push(rest@));
                            assert(done.push(rest@).drop_last() =~= done);
                        }
                        add_pair(&mut params, rest);
                        break;
                    },
                }
            }
        },
    }
    params
}

/// The version that the URI of a connection asks for.
pub fn negotiated_version(uri: &str) -> (r: Option<String>)
    ensures
        text::str_option(r) == (if query_params(uri@).contains_key("vsn"@) {
            Some(query_params(uri@)["vsn"@])
        } else {
            None
        }),
{
    let params = parse_query_params(uri);
    match params.get(&"vsn".to_owned()) {
        Some(v) => Some(v.clone()),
        None => None,
    }
}

/// The topics that the client behind a connection has joined, with the references that the
/// client gave its joins.
pub struct WsSession {
    server: ChannelServer,
    join_refs: Table<String, Option<String>>,
}

/// The payload that gives a reason.
pub open spec fn reason_bytes(reason: Seq<char>) -> Seq<u8> {
    encode_utf8(json::json_text(json::field("reason"@, Json::Text(reason))))
}

fn reason_payload(reason: &str) -> (r: Vec<u8>)
    ensures
        r@ == reason_bytes(reason@),
{
    let v = json::object_with("reason", json::of_string(reason.to_owned()));
    let t = json::text(&v);
    crate::wire::bytes_of(t.as_str().as_bytes())
}

impl WsSession {
    /// The process of the session.
    pub closed spec fn pid(&self) -> PidView {
        self.server.client()
    }

    /// The patterns of the handlers' topics, in order.
    pub closed spec fn patterns(&self) -> Seq<Seq<char>> {
        self.server.patterns()
    }

    /// The sockets of the topics joined.
    pub closed spec fn joined(&self) -> Map<Seq<char>, SocketView> {
        self.server.joined()
    }

    /// The references that the client gave its joins.
    pub closed spec fn refs(&self) -> Map<Seq<char>, Option<Seq<char>>> {
        self.join_refs@.map_values(|r: Option<String>| text::str_option(r))
    }

    /// The session's invariant.
    pub closed spec fn wf(&self) -> bool {
        &&& self.server.wf()
        &&& self.join_refs.wf()
        &&& self.join_refs@.dom() == self.server.joined().dom()
    }

    /// The reference that the client gave the join of a topic.
    pub open spec fn ref_of(&self, topic: Seq<char>) -> Option<Seq<char>> {
        if self.refs().contains_key(topic) {
            self.refs()[topic]
        } else {
            None
        }
    }

    /// Exactly the topics joined have a reference, which may be empty.
    pub proof fn law_refs(&self)
        requires
            self.wf(),
        ensures
            self.refs().dom() == self.joined().dom(),
    {
        assert(self.refs().dom() =~= self.join_refs@.dom());
    }

    /// The session of a process that has joined nothing.
    pub fn new(pid: Pid, handlers: &Vec<String>) -> (r: Self)
        ensures
            r.wf(),
            r.pid() == pid@,
            r.patterns() == table::views(handlers@),
            r.joined() == Map::<Seq<char>, SocketView>::empty(),
            r.refs() == Map::<Seq<char>, Option<Seq<char>>>::empty(),
    {
        let mut server = ChannelServer::new(pid);
        let mut i: usize = 0;
        assert(table::views(handlers@.take(0)) =~= Seq::<Seq<char>>::empty());
        while i < handlers.len()
            invariant
                i <= handlers@.len(),
                server.wf(),
                server.client() == pid@,
                server.patterns() == table::views(handlers@.take(i as int)),
                server.joined() == Map::<Seq<char>, SocketView>::empty(),
            decreases handlers@.len() - i,
        {
            server.add_handler(handlers[i].clone());
            assert(table::views(handlers@.take(i + 1)) =~= table::views(
                handlers@.take(i as int),
            ).push(handlers@[i as int]@));
            i = i + 1;
        }
        assert(handlers@.take(handlers@.len() as int) =~= handlers@);
        let r = WsSession { server, join_refs: Table::new() };
        assert(r.refs() =~= Map::<Seq<char>, Option<Seq<char>>>::empty());
        assert(r.join_refs@.dom() =~= r.server.joined().dom());
        r
    }

    /// Whether the client has joined a topic.
    pub fn is_joined(&self, topic: &str) -> (r: bool)
        requires
            self.wf(),
        ensures
            r == self.joined().contains_key(topic@),
    {
        self.server.is_joined(topic)
    }

    /// The reference that the client gave the join of a topic.
    pub fn get_join_ref(&self, topic: &str) -> (r: Option<String>)
        requires
            self.wf(),
        ensures
            text::str_option(r) == self.ref_of(topic@),
    {
        let key = topic.to_owned();
        match self.join_refs.get(&key) {
            Some(r) => transport::copy_option(r),
            None => None,
        }
    }

    /// Decides about a join: the place of the handler to ask, with the socket; or a refusal.
    pub fn handle_join(&self, topic: &str, timestamp: u64, count: u64) -> (r: Result<
        (usize, Socket),
        JoinError,
    >)
        requires
            self.wf(),
        ensures
            if self.joined().contains_key(topic@) {
                r matches Err(e) && e.reason@ == "already joined"@ && e.details is None
            } else if server::unmatched(self.patterns(), topic@) {
                r matches Err(e) && e.reason@ == "no handler for topic: "@ + topic@
                    && e.details is None
            } else {
                r matches Ok((handler, socket)) && server::is_first_match(
                    self.patterns(),
                    topic@,
                    handler as int,
                ) && socket@ == (SocketView {
                    pid: self.pid(),
                    topic: topic@,
                    join_ref: channels::join_reference(timestamp, count),
                })
            },
    {
        match self.server.handle_join(topic, "".to_owned(), timestamp, count) {
            JoinStep::Ask { handler, socket } => Ok((handler, socket)),
            JoinStep::Refused(reply) => {
                let reason = match reply {
                    ChannelReply::JoinError { msg_ref: _, reason } => reason,
                    _ => "".to_owned(),
                };
                Err(JoinError { reason, details: None })
            },
        }
    }

    /// Completes a join with what the handler said. On an admission the client joins the group
    /// that is handed back.
    pub fn complete_join(
        &mut self,
        socket: Socket,
        join_ref: Option<String>,
        outcome: Result<Option<Vec<u8>>, JoinError>,
    ) -> (r: (Result<Option<Vec<u8>>, JoinError>, Option<String>))
        requires
            old(self).wf(),
            socket@.pid == old(self).pid(),
            !old(self).joined().contains_key(socket@.topic),
        ensures
            final(self).wf(),
            final(self).pid() == old(self).pid(),
            final(self).patterns() == old(self).patterns(),
            match outcome {
                Ok(payload) => {
                    &&& final(self).joined() == old(self).joined().insert(socket@.topic, socket@)
                    &&& final(self).refs() == old(self).refs().insert(
                        socket@.topic,
                        text::str_option(join_ref),
                    )
                    &&& r.0 == Ok::<Option<Vec<u8>>, JoinError>(payload)
                    &&& r.1 matches Some(group) && group@ == channels::group_name(socket@.topic)
                },
                Err(e) => {
                    &&& *final(self) == *old(self)
                    &&& r.0 == Err::<Option<Vec<u8>>, JoinError>(e)
                    &&& r.1 is None
                },
            },
    {
        let payload = match outcome {
            Ok(payload) => payload,
            Err(e) => {
                return (Err(e), None);
            },
        };
        let key = socket.topic.clone();
        let ghost topic = socket.topic@;
        let (reply, group) = self.server.complete_join(socket, "".to_owned(), Ok(payload));
        self.join_refs.insert(key, join_ref);
        proof {
            assert(self.refs() =~= old(self).refs().insert(topic, text::str_option(join_ref)));
            assert(self.join_refs@.dom() =~= self.server.joined().dom());
        }
        match reply {
            ChannelReply::JoinOk { msg_ref: _, payload } => (Ok(payload), group),
            _ => (Ok(None), group),
        }
    }

    /// Leaves a topic. If the client had joined it, its socket is handed back: the channel is
    /// told that the client left, and the client leaves the topic's group.
    pub fn handle_leave(&mut self, topic: &str) -> (r: Option<Socket>)
        requires
            old(self).wf(),
        ensures
            final(self).wf(),
            final(self).pid() == old(self).pid(),
            final(self).patterns() == old(self).patterns(),
            final(self).joined() == old(self).joined().remove(topic@),
            final(self).refs() == old(self).refs().remove(topic@),
            server::socket_option(r) == (if old(self).joined().contains_key(topic@) {
                Some(old(self).joined()[topic@])
            } else {
                None
            }),
    {
        let key = topic.to_owned();
        self.join_refs.remove(&key);
        let r = self.server.handle_leave(topic);
        proof {
            assert(self.refs() =~= old(self).refs().remove(topic@));
            assert(self.join_refs@.dom() =~= self.server.joined().dom());
        }
        r
    }

    /// Ends all channels: each is told that the connection was closed, and the client leaves
    /// each topic's group.
    pub fn terminate(&mut self) -> (r: Vec<Socket>)
        requires
            old(self).wf(),
        ensures
            final(self).wf(),
            final(self).pid() == old(self).pid(),
            final(self).patterns() == old(self).patterns(),
            final(self).joined() == Map::<Seq<char>, SocketView>::empty(),
            final(self).refs() == Map::<Seq<char>, Option<Seq<char>>>::empty(),
            table::views(r@).no_duplicates(),
            table::views(r@).to_set() == old(self).joined().values(),
    {
        proof {
            self.server.law_sockets();
        }
        let ghost sockets = self.server.sockets();
        let ghost joined = self.server.joined();
        let r = self.server.terminate();
        self.join_refs = Table::new();
        proof {
            assert(self.refs() =~= Map::<Seq<char>, Option<Seq<char>>>::empty());
            assert(self.join_refs@.dom() =~= self.server.joined().dom());
            assert(sockets.to_set() =~= joined.values()) by {
                assert forall|s: SocketView| joined.values().contains(s) implies sockets.contains(
                    s,
                ) by {
                    let topic = choose|t: Seq<char>| joined.contains_key(t) && joined[t] == s;
                    assert(joined.contains_key(topic));
                    let i = choose|i: int|
                        0 <= i < sockets.len() && #[trigger] sockets[i] == joined[topic]
                            && sockets[i].topic == topic;
                    assert(sockets[i] == s);
                }
                assert forall|s: SocketView| sockets.contains(s) implies joined.values().contains(
                    s,
                ) by {
                    let i = choose|i: int| 0 <= i < sockets.len() && sockets[i] == s;
                    assert(joined.contains_key(s.topic) && joined[s.topic] == s);
                }
            }
            assert(sockets.no_duplicates()) by {
                assert forall|i: int, j: int| 0 <= i < sockets.len() && 0 <= j < sockets.len() && i
                    != j implies sockets[i] != sockets[j] by {
                    assert(sockets[i].topic != sockets[j].topic);
                }
            }
        }
        r
    }
}

/// What is to be done about a message from the client.
pub enum WsStep {
    /// The handler at `handler` is asked about the join; `complete_join` of the session and
    /// `join_reply` take what it says.
    Ask {
        /// The handler's place.
        handler: usize,
        /// The socket of the join.
        socket: Socket,
    },
    /// The channel of the topic gets the event; `event_reply` takes what it makes of it.
    Deliver,
    /// The bytes are sent. If a channel ends, it is told so and the client leaves its group.
    Answer {
        /// The bytes.
        reply: Vec<u8>,
        /// The channel that ends.
        left: Option<Socket>,
    },
}

/// The bytes of the reply to a join: success, with the payload or an empty one, or the reason of
/// the refusal.
pub open spec fn join_bytes<S: Serializer>(
    serializer: S,
    msg: DecodedView,
    outcome: Result<Option<Vec<u8>>, JoinError>,
) -> Seq<u8> {
    match outcome {
        Ok(Some(p)) => serializer.reply_bytes(msg.join_ref, msg.msg_ref, msg.topic, "ok"@, p@),
        Ok(None) => serializer.reply_bytes(
            msg.join_ref,
            msg.msg_ref,
            msg.topic,
            "ok"@,
            transport::empty_payload(),
        ),
        Err(e) => serializer.reply_bytes(
            msg.join_ref,
            msg.msg_ref,
            msg.topic,
            "error"@,
            reason_bytes(e.reason@),
        ),
    }
}

/// The reply to a join.
pub fn join_reply<S: Serializer>(
    serializer: &S,
    msg: &DecodedMessage,
    outcome: Result<Option<Vec<u8>>, JoinError>,
) -> (r: Vec<u8>)
    ensures
        r@ == join_bytes(*serializer, msg@, outcome),
{
    let jr = as_slice(&msg.join_ref);
    let mr = as_slice(&msg.msg_ref);
    let topic = msg.topic.as_str();
    match outcome {
        Ok(Some(p)) => serializer.encode_reply(jr, mr, topic, "ok", p.as_slice()),
        Ok(None) => {
            let p = transport::nothing();
            serializer.encode_reply(jr, mr, topic, "ok", p.as_slice())
        },
        Err(e) => {
            let p = reason_payload(e.reason.as_str());
            serializer.encode_reply(jr, mr, topic, "error", p.as_slice())
        },
    }
}

/// What follows from a message of the client.
pub open spec fn ws_step_of<S: Serializer>(
    before: WsSession,
    after: WsSession,
    serializer: S,
    msg: DecodedView,
    timestamp: u64,
    count: u64,
    r: WsStep,
) -> bool {
    let joined = before.joined().contains_key(msg.topic);
    match transport::request(msg.event, msg.topic) {
        Request::Heartbeat => {
            &&& after == before
            &&& r matches WsStep::Answer { reply, left } && left is None && reply@
                == serializer.reply_bytes(
                None,
                msg.msg_ref,
                "phoenix"@,
                "ok"@,
                transport::empty_payload(),
            )
        },
        Request::Join => {
            &&& after == before
            &&& if joined {
                r matches WsStep::Answer { reply, left } && left is None && reply@
                    == serializer.reply_bytes(
                    msg.join_ref,
                    msg.msg_ref,
                    msg.topic,
                    "error"@,
                    reason_bytes("already joined"@),
                )
            } else if server::unmatched(before.patterns(), msg.topic) {
                r matches WsStep::Answer { reply, left } && left is None && reply@
                    == serializer.reply_bytes(
                    msg.join_ref,
                    msg.msg_ref,
                    msg.topic,
                    "error"@,
                    reason_bytes("no handler for topic: "@ + msg.topic),
                )
            } else {
                r matches WsStep::Ask { handler, socket } && server::is_first_match(
                    before.patterns(),
                    msg.topic,
                    handler as int,
                ) && socket@ == (SocketView {
                    pid: before.pid(),
                    topic: msg.topic,
                    join_ref: channels::join_reference(timestamp, count),
                })
            }
        },
        Request::Leave => {
            &&& after.joined() == before.joined().remove(msg.topic)
            &&& after.refs() == before.refs().remove(msg.topic)
            &&& r matches WsStep::Answer { reply, left } && server::socket_option(left) == (
            if joined {
                Some(before.joined()[msg.topic])
            } else {
                None
            }) && reply@ == serializer.reply_bytes(
                None,
                msg.msg_ref,
                msg.topic,
                "ok"@,
                transport::empty_payload(),
            )
        },
        Request::Event => {
            &&& after == before
            &&& if joined {
                r is Deliver
            } else {
                r matches WsStep::Answer { reply, left } && left is None && reply@
                    == serializer.reply_bytes(
                    None,
                    msg.msg_ref,
                    msg.topic,
                    "error"@,
                    reason_bytes("not joined"@),
                )
            }
        },
    }
}

/// Decides about a message from the client.
pub fn handle_decoded_message<S: Serializer>(
    session: &mut WsSession,
    serializer: &S,
    msg: &DecodedMessage,
    timestamp: u64,
    count: u64,
) -> (r: WsStep)
    requires
        old(session).wf(),
    ensures
        final(session).wf(),
        final(session).pid() == old(session).pid(),
        final(session).patterns() == old(session).patterns(),
        ws_step_of(*old(session), *final(session), *serializer, msg@, timestamp, count, r),
{
    let topic = msg.topic.as_str();
    let mr = as_slice(&msg.msg_ref);
    match transport::request_of(msg.event.as_str(), topic) {
        Request::Heartbeat => {
            let p = transport::nothing();
            let reply = serializer.encode_reply(None, mr, "phoenix", "ok", p.as_slice());
            WsStep::Answer { reply, left: None }
        },
        Request::Join => match session.handle_join(topic, timestamp, count) {
            Ok((handler, socket)) => WsStep::Ask { handler, socket },
            Err(e) => WsStep::Answer { reply: join_reply(serializer, msg, Err(e)), left: None },
        },
        Request::Leave => {
            let left = session.handle_leave(topic);
            let p = transport::nothing();
            let reply = serializer.encode_reply(None, mr, topic, "ok", p.as_slice());
            WsStep::Answer { reply, left }
        },
        Request::Event => if session.is_joined(topic) {
            WsStep::Deliver
        } else {
            let p = reason_payload("not joined");
            let reply = serializer.encode_reply(None, mr, topic, "error", p.as_slice());
            WsStep::Answer { reply, left: None }
        },
    }
}

/// The bytes of the reply to an event, by what the channel made of it. An event without a reply
/// of its own is acknowledged; one that ends the channel is not.
pub open spec fn event_bytes<S: Serializer>(
    serializer: S,
    join_ref: Option<Seq<char>>,
    msg: DecodedView,
    result: Option<RawHandleResult>,
) -> Option<Seq<u8>> {
    match result {
        None => Some(
            serializer.reply_bytes(
                join_ref,
                msg.msg_ref,
                msg.topic,
                "error"@,
                reason_bytes("handler error"@),
            ),
        ),
        Some(RawHandleResult::Reply { status, payload }) => Some(
            serializer.reply_bytes(
                join_ref,
                msg.msg_ref,
                msg.topic,
                channels::status_text(status),
                payload@,
            ),
        ),
        Some(RawHandleResult::Push { event, payload }) => Some(
            serializer.push_bytes(join_ref, msg.topic, event@, payload@),
        ),
        Some(RawHandleResult::Stop { .. }) => None,
        _ => Some(
            serializer.reply_bytes(
                join_ref,
                msg.msg_ref,
                msg.topic,
                "ok"@,
                transport::empty_payload(),
            ),
        ),
    }
}

/// The view of optional bytes.
pub open spec fn bytes_option(b: Option<Vec<u8>>) -> Option<Seq<u8>> {
    match b {
        Some(v) => Some(v@),
        None => None,
    }
}

/// Acts on what the channel of a topic made of an event; `None` stands for a channel that is
/// not there. `members` are the members of the topic's group. Hands back the reply, what is sent
/// to whom, and the channel that ends.
pub fn event_reply<S: Serializer>(
    session: &mut WsSession,
    serializer: &S,
    msg: &DecodedMessage,
    result: Option<RawHandleResult>,
    members: &Vec<Pid>,
) -> (r: (Option<Vec<u8>>, Vec<(Pid, Vec<u8>)>, Option<Socket>))
    requires
        old(session).wf(),
    ensures
        final(session).wf(),
        final(session).pid() == old(session).pid(),
        final(session).patterns() == old(session).patterns(),
        bytes_option(r.0) == event_bytes(
            *serializer,
            old(session).ref_of(msg@.topic),
            msg@,
            result,
        ),
        channels::sends(r.1@) == (match result {
            Some(raw) => server::sends_of(
                msg@.topic,
                raw,
                table::views(members@),
                old(session).pid(),
            ),
            None => Seq::<(PidView, Seq<u8>)>::empty(),
        }),
        match result {
            Some(RawHandleResult::Stop { .. }) => {
                &&& final(session).joined() == old(session).joined().remove(msg@.topic)
                &&& final(session).refs() == old(session).refs().remove(msg@.topic)
                &&& server::socket_option(r.2) == (if old(session).joined().contains_key(
                    msg@.topic,
                ) {
                    Some(old(session).joined()[msg@.topic])
                } else {
                    None
                })
            },
            _ => *final(session) == *old(session) && r.2 is None,
        },
{
    let topic = msg.topic.as_str();
    let mr = as_slice(&msg.msg_ref);
    let join_ref = session.get_join_ref(topic);
    let jr = as_slice(&join_ref);
    let none: Vec<(Pid, Vec<u8>)> = Vec::new();
    assert(channels::sends(none@) =~= Seq::<(PidView, Seq<u8>)>::empty());
    let empty = transport::nothing();
    match result {
        None => {
            let p = reason_payload("handler error");
            (Some(serializer.encode_reply(jr, mr, topic, "error", p.as_slice())), none, None)
        },
        Some(raw) => match raw {
            RawHandleResult::NoReply => (
                Some(serializer.encode_reply(jr, mr, topic, "ok", empty.as_slice())),
                none,
                None,
            ),
            RawHandleResult::Reply { status, payload } => (
                Some(serializer.encode_reply(jr, mr, topic, status.text(), payload.as_slice())),
                none,
                None,
            ),
            RawHandleResult::Push { event, payload } => (
                Some(serializer.encode_push(jr, topic, event.as_str(), payload.as_slice())),
                none,
                None,
            ),
            RawHandleResult::Broadcast { event, payload } => {
                let sends = channels::broadcast_to_topic(topic, event.as_str(), payload, members);
                (Some(serializer.encode_reply(jr, mr, topic, "ok", empty.as_slice())), sends, None)
            },
            RawHandleResult::BroadcastFrom { event, payload } => {
                let pid = session.server.client_pid();
                let sends = channels::broadcast_to_topic_from(
                    topic,
                    &pid,
                    event.as_str(),
                    payload,
                    members,
                );
                (Some(serializer.encode_reply(jr, mr, topic, "ok", empty.as_slice())), sends, None)
            },
            RawHandleResult::Stop { reason: _ } => {
                let left = session.handle_leave(topic);
                (None, none, left)
            },
        },
    }
}

/// What is to be done about a message from the mailbox.
pub enum MailboxStep {
    /// The channels are told of it, then the bytes are sent to the client.
    Forward(Vec<u8>),
    /// The channels are told of it.
    Inform,
    /// Nothing is done.
    Ignore,
}

/// Decides about a message from the mailbox: an event that was broadcast goes to the client, and
/// another answer of a server is for no one.
pub fn handle_mailbox<S: Serializer>(session: &WsSession, serializer: &S, bytes: &[u8]) -> (r:
    MailboxStep)
    requires
        session.wf(),
    ensures
        match channels::reply_read(bytes@) {
            Some(ReplyView::Push { topic, event, payload }) => r matches MailboxStep::Forward(wire)
                && wire@ == serializer.push_bytes(session.ref_of(topic), topic, event, payload),
            Some(_) => r is Ignore,
            None => r is Inform,
        },
{
    match ChannelReply::decode(bytes) {
        Some(ChannelReply::Push { topic, event, payload }) => {
            let join_ref = session.get_join_ref(topic.as_str());
            MailboxStep::Forward(
                serializer.encode_push(
                    as_slice(&join_ref),
                    topic.as_str(),
                    event.as_str(),
                    payload.as_slice(),
                ),
            )
        },
        Some(_) => MailboxStep::Ignore,
        None => MailboxStep::Inform,
    }
}

/// What is sent on account of what a channel made of a message from the mailbox: only a
/// broadcast counts.
pub fn info_sends(topic: &str, result: RawHandleResult, members: &Vec<Pid>) -> (r: Vec<
    (Pid, Vec<u8>),
>)
    ensures
        channels::sends(r@) == (match result {
            RawHandleResult::Broadcast { event, payload } => channels::to_each(
                table::views(members@),
                channels::event_wire(topic@, event@, payload@),
            ),
            _ => Seq::<(PidView, Seq<u8>)>::empty(),
        }),
{
    match result {
        RawHandleResult::Broadcast { event, payload } => channels::broadcast_to_topic(
            topic,
            event.as_str(),
            payload,
            members,
        ),
        _ => {
            let none: Vec<(Pid, Vec<u8>)> = Vec::new();
            assert(channels::sends(none@) =~= Seq::<(PidView, Seq<u8>)>::empty());
            none
        },
    }
}

/// What was read from the connection.
pub enum Frame {
    /// A text.
    Text(Vec<u8>),
    /// Something that the protocol has no use for: binary data, a ping or a pong.
    Other,
    /// The peer closes the connection.
    Close,
    /// The connection failed.
    Failed,
    /// There is nothing more to read.
    End,
}

/// What is to be done about what was read.
pub enum FrameStep {
    /// The message is handled.
    Handle(DecodedMessage),
    /// It is passed over.
    Skip,
    /// The channels end, and so does the connection.
    Disconnect,
}

/// Decides about what was read from the connection: a text that is no message is passed over.
pub fn handle_frame<S: Serializer>(serializer: &S, frame: Frame) -> (r: FrameStep)
    ensures
        match frame {
            Frame::Text(data) => match serializer.decoded(data@) {
                Some(m) => r matches FrameStep::Handle(msg) && msg@ == m,
                None => r is Skip,
            },
            Frame::Other => r is Skip,
            _ => r is Disconnect,
        },
{
    match frame {
        Frame::Text(data) => match serializer.decode(data.as_slice()) {
            Some(msg) => FrameStep::Handle(msg),
            None => FrameStep::Skip,
        },
        Frame::Other => FrameStep::Skip,
        _ => FrameStep::Disconnect,
    }
}

/// The payload for the client that a channel sends with an admission: its object, or an empty
/// one if it is none.
pub fn admission_payload(reply: &[u8]) -> (r: Vec<u8>)
    ensures
        r@ == encode_utf8(
            json::json_text(
                match json::json_parsed(reply@) {
                    Some(Json::Object(fields)) => Json::Object(fields),
                    _ => json::no_fields(),
                },
            ),
        ),
{
    let value = match json::parse(reply) {
        Some(v) => if json::is_object(&v) {
            v
        } else {
            json::empty_object()
        },
        None => json::empty_object(),
    };
    let t = json::text(&value);
    crate::wire::bytes_of(t.as_str().as_bytes())
}

/// The result with its payload in JSON. `converted` is what the payload became; if it could not
/// be converted, it stays.
pub fn convert_result_to_json(result: RawHandleResult, converted: Option<Vec<u8>>) -> (r:
    RawHandleResult)
    ensures
        r == (match (result, converted) {
            (RawHandleResult::Reply { status, .. }, Some(payload)) => RawHandleResult::Reply {
                status,
                payload,
            },
            (RawHandleResult::Push { event, .. }, Some(payload)) => RawHandleResult::Push {
                event,
                payload,
            },
            (RawHandleResult::Broadcast { event, .. }, Some(payload)) => {
                RawHandleResult::Broadcast { event, payload }
            },
            (RawHandleResult::BroadcastFrom { event, .. }, Some(payload)) => {
                RawHandleResult::BroadcastFrom { event, payload }
            },
            _ => result,
        }),
{
    match converted {
        None => result,
        Some(json_payload) => match result {
            RawHandleResult::Reply { status, payload: _ } => RawHandleResult::Reply {
                status,
                payload: json_payload,
            },
            RawHandleResult::Push { event, payload: _ } => RawHandleResult::Push {
                event,
                payload: json_payload,
            },
            RawHandleResult::Broadcast { event, payload: _ } => RawHandleResult::Broadcast {
                event,
                payload: json_payload,
            },
            RawHandleResult::BroadcastFrom { event, payload: _ } => {
                RawHandleResult::BroadcastFrom { event, payload: json_payload }
            },
            other => other,
        },
    }
}

/// Every event of a topic that the client has not joined is refused as not joined, and changes
/// nothing.
pub proof fn law_events_need_a_join<S: Serializer>(
    before: WsSession,
    after: WsSession,
    serializer: S,
    msg: DecodedView,
    timestamp: u64,
    count: u64,
    r: WsStep,
)
    requires
        ws_step_of(before, after, serializer, msg, timestamp, count, r),
        transport::request(msg.event, msg.topic) == Request::Event,
        !before.joined().contains_key(msg.topic),
    ensures
        after == before,
        r matches WsStep::Answer { reply, left } && left is None && reply@
            == serializer.reply_bytes(
            None,
            msg.msg_ref,
            msg.topic,
            "error"@,
            reason_bytes("not joined"@),
        ),
{
}

} // verus!
