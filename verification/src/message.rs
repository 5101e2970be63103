//! The messages exchanged on the data channel, and their wire codec.

use vstd::prelude::*;
use crate::json::Json;
use crate::json::JsonV;
use crate::json::wf_jv;
use crate::json::print_jv;
use crate::json::sp_json;
use crate::json::obj_get_from;
use crate::json::view_json_seq;
use crate::json::encode_json;
use crate::json::parse_json;
use crate::json::clone_json;
use crate::json::obj_find;
use crate::timestamp::Timestamp;
use crate::timestamp::is_rfc3339;
use crate::error::DecodeError;

verus! {

broadcast use vstd::std_specs::vec::group_vec_axioms;

/// One message of the data stream. Each serializes to a single JSON object
/// on a single line, with the `type` field as sole discriminator.
pub enum Message {
    /// One unit of extracted data for a stream.
    Record { stream: String, record: Json, time_extracted: Option<Timestamp> },
    /// The shape of the records that follow for a stream.
    Schema {
        stream: String,
        schema: Json,
        key_properties: Vec<String>,
        bookmark_properties: Option<Vec<String>>,
    },
    /// An opaque checkpoint blob, only ever round-tripped.
    State { value: Json },
}

/// The mathematical shape of a [`Message`].
pub enum MessageV {
    Record { stream: Seq<char>, record: JsonV, time_extracted: Option<Seq<char>> },
    Schema {
        stream: Seq<char>,
        schema: JsonV,
        key_properties: Seq<Seq<char>>,
        bookmark_properties: Option<Seq<Seq<char>>>,
    },
    State { value: JsonV },
}

impl View for Message {
    type V = MessageV;

    open spec fn view(&self) -> MessageV {
        match self {
            Message::Record { stream, record, time_extracted } => MessageV::Record {
                stream: stream@,
                record: record@,
                time_extracted: match time_extracted {
                    Some(t) => Some(t@),
                    None => None,
                },
            },
            Message::Schema { stream, schema, key_properties, bookmark_properties } => {
                MessageV::Schema {
                    stream: stream@,
                    schema: schema@,
                    key_properties: key_properties.deep_view(),
                    bookmark_properties: match bookmark_properties {
                        Some(v) => Some(v.deep_view()),
                        None => None,
                    },
                }
            },
            Message::State { value } => MessageV::State { value: value@ },
        }
    }
}

/// The JSON tree of a list of strings.
pub open spec fn strs_to_jv(v: Seq<Seq<char>>) -> JsonV {
    JsonV::Arr(v.map_values(|t: Seq<char>| JsonV::Str(t)))
}

/// The JSON tree a message serializes to: the `type` tag first, then the
/// variant's fields in order, unset optional fields wholly absent.
pub open spec fn msg_to_jv(m: MessageV) -> JsonV {
    match m {
        MessageV::Record { stream, record, time_extracted } => JsonV::Obj(
            seq![("type"@, JsonV::Str("RECORD"@)), ("stream"@, JsonV::Str(stream)), ("record"@, record)]
                + match time_extracted {
                Some(t) => seq![("time_extracted"@, JsonV::Str(t))],
                None => Seq::empty(),
            },
        ),
        MessageV::Schema { stream, schema, key_properties, bookmark_properties } => JsonV::Obj(
            seq![
                ("type"@, JsonV::Str("SCHEMA"@)),
                ("stream"@, JsonV::Str(stream)),
                ("schema"@, schema),
                ("key_properties"@, strs_to_jv(key_properties)),
            ] + match bookmark_properties {
                Some(v) => seq![("bookmark_properties"@, strs_to_jv(v))],
                None => Seq::empty(),
            },
        ),
        MessageV::State { value } => JsonV::Obj(
            seq![("type"@, JsonV::Str("STATE"@)), ("value"@, value)],
        ),
    }
}

/// A message the encoder accepts: the opaque documents well formed, the
/// timestamp a sound RFC 3339 text with offset.
pub open spec fn wf_msg(m: MessageV) -> bool {
    match m {
        MessageV::Record { stream, record, time_extracted } => wf_jv(record) && match time_extracted {
            Some(t) => is_rfc3339(t),
            None => true,
        },
        MessageV::Schema { stream, schema, key_properties, bookmark_properties } => wf_jv(schema),
        MessageV::State { value } => wf_jv(value),
    }
}

/// The exact wire text of a message.
pub open spec fn spec_encode_message(m: MessageV) -> Seq<char> {
    print_jv(msg_to_jv(m))
}

/// A JSON array read back as a list of strings, if every element is a string.
pub open spec fn jv_to_strs(v: JsonV) -> Option<Seq<Seq<char>>> {
    match v {
        JsonV::Arr(items) => if forall|k: int| 0 <= k < items.len() ==> #[trigger] items[k] is Str {
            Some(items.map_values(|it: JsonV| it->Str_0))
        } else {
            None
        },
        _ => None,
    }
}

/// An optional member: wholly absent and JSON `null` both read as unset.
pub open spec fn opt_member(fields: Seq<(Seq<char>, JsonV)>, key: Seq<char>) -> Option<JsonV> {
    match obj_get_from(fields, key, 0) {
        None => None,
        Some(JsonV::Null) => None,
        Some(v) => Some(v),
    }
}

/// The message a JSON tree decodes to, with the error when it does not:
/// a non-object is the wrong kind; a missing tag or a missing required
/// member is a missing field; a tag that is present but is none of the
/// three tokens, of whatever JSON kind, is an unknown message type.
/// Unknown extra members are ignored.
pub open spec fn jv_to_msg(j: JsonV) -> Result<MessageV, DecodeError> {
    match j {
        JsonV::Obj(fields) => match obj_get_from(fields, "type"@, 0) {
            None => Err(DecodeError::MissingRequiredField),
            Some(tv) => match tv {
                JsonV::Str(t) => if t == "RECORD"@ {
                    jv_to_record(fields)
                } else if t == "SCHEMA"@ {
                    jv_to_schema(fields)
                } else if t == "STATE"@ {
                    match obj_get_from(fields, "value"@, 0) {
                        None => Err(DecodeError::MissingRequiredField),
                        Some(v) => Ok(MessageV::State { value: v }),
                    }
                } else {
                    Err(DecodeError::UnknownMessageType)
                },
                _ => Err(DecodeError::UnknownMessageType),
            },
        },
        _ => Err(DecodeError::WrongFieldKind),
    }
}

/// The members of a `RECORD` object.
pub open spec fn jv_to_record(fields: Seq<(Seq<char>, JsonV)>) -> Result<MessageV, DecodeError> {
    match obj_get_from(fields, "stream"@, 0) {
        None => Err(DecodeError::MissingRequiredField),
        Some(JsonV::Str(stream)) => match obj_get_from(fields, "record"@, 0) {
            None => Err(DecodeError::MissingRequiredField),
            Some(record) => match opt_member(fields, "time_extracted"@) {
                None => Ok(MessageV::Record { stream, record, time_extracted: None }),
                Some(JsonV::Str(t)) => if is_rfc3339(t) {
                    Ok(MessageV::Record { stream, record, time_extracted: Some(t) })
                } else {
                    Err(DecodeError::WrongFieldKind)
                },
                Some(_) => Err(DecodeError::WrongFieldKind),
            },
        },
        Some(_) => Err(DecodeError::WrongFieldKind),
    }
}

/// The members of a `SCHEMA` object.
pub open spec fn jv_to_schema(fields: Seq<(Seq<char>, JsonV)>) -> Result<MessageV, DecodeError> {
    match obj_get_from(fields, "stream"@, 0) {
        None => Err(DecodeError::MissingRequiredField),
        Some(JsonV::Str(stream)) => match obj_get_from(fields, "schema"@, 0) {
            None => Err(DecodeError::MissingRequiredField),
            Some(schema) => match obj_get_from(fields, "key_properties"@, 0) {
                None => Err(DecodeError::MissingRequiredField),
                Some(kv) => match jv_to_strs(kv) {
                    None => Err(DecodeError::WrongFieldKind),
                    Some(key_properties) => match opt_member(fields, "bookmark_properties"@) {
                        None => Ok(
                            MessageV::Schema {
                                stream,
                                schema,
                                key_properties,
                                bookmark_properties: None,
                            },
                        ),
                        Some(bv) => match jv_to_strs(bv) {
                            None => Err(DecodeError::WrongFieldKind),
                            Some(b) => Ok(
                                MessageV::Schema {
                                    stream,
                                    schema,
                                    key_properties,
                                    bookmark_properties: Some(b),
                                },
                            ),
                        },
                    },
                },
            },
        },
        Some(_) => Err(DecodeError::WrongFieldKind),
    }
}

/// What a line of wire text decodes to: text that is not one JSON document
/// is malformed, everything else goes by [`jv_to_msg`].
pub open spec fn spec_decode_message(s: Seq<char>) -> Result<MessageV, DecodeError> {
    match sp_json(s) {
        None => Err(DecodeError::MalformedJson),
        Some(j) => jv_to_msg(j),
    }
}

/// A JSON string member.
fn jstr(key: &str, val: String) -> (r: (String, Json))
    ensures
        r.0@ == key@,
        r.1@ == JsonV::Str(val@),
{
    (String::from_str(key), Json::Str(val))
}

/// The JSON array of a list of strings.
pub fn strs_to_json(v: &Vec<String>) -> (r: Json)
    ensures
        r@ == strs_to_jv(v.deep_view()),
{
    let mut items: Vec<Json> = Vec::new();
    let mut k: usize = 0;
    while k < v.len()
        invariant
            k <= v@.len(),
            items@.len() == k,
            forall|x: int| 0 <= x < k ==> #[trigger] items@[x]@ == JsonV::Str(v@[x]@),
        decreases v@.len() - k,
    {
        items.push(Json::Str(v[k].clone()));
        k = k + 1;
    }
    proof {
        let target = v.deep_view().map_values(|t: Seq<char>| JsonV::Str(t));
        assert(view_json_seq(items@) =~= target) by {
            crate::json::lemma_view_json_seq_len(items@);
            assert forall|x: int| 0 <= x < items@.len() implies view_json_seq(items@)[x]
                == target[x] by {
                crate::json::lemma_view_json_seq_index(items@, x);
            }
        }
    }
    Json::Arr(items)
}

impl Message {
    /// Whether the encoder accepts this message; see [`wf_msg`].
    pub open spec fn wf(&self) -> bool {
        wf_msg(self@)
    }

    /// The single-line wire text of this message: exactly
    /// [`spec_encode_message`] of its shape, the `type` tag first and unset
    /// optional fields wholly absent.
    pub fn encode(&self) -> (r: String)
        ensures
            r@ == spec_encode_message(self@),
    {
        let j = self.to_json();
        encode_json(&j)
    }

    /// The JSON document this message serializes to.
    pub fn to_json(&self) -> (r: Json)
        ensures
            r@ == msg_to_jv(self@),
    {
        let mut fields: Vec<(String, Json)> = Vec::new();
        match self {
            Message::Record { stream, record, time_extracted } => {
                fields.push(jstr("type", String::from_str("RECORD")));
                fields.push(jstr("stream", stream.clone()));
                fields.push((String::from_str("record"), clone_json(record)));
                match time_extracted {
                    Some(t) => {
                        fields.push(jstr("time_extracted", t.to_text()));
                    },
                    None => {},
                }
                proof {
                    let target = msg_to_jv(self@)->Obj_0;
                    assert(crate::json::view_json_fields(fields@) =~= target) by {
                        crate::json::lemma_view_json_fields_len(fields@);
                        assert forall|x: int| 0 <= x < fields@.len() implies
                            crate::json::view_json_fields(fields@)[x] == target[x] by {
                            crate::json::lemma_view_json_fields_index(fields@, x);
                        }
                    }
                }
            },
            Message::Schema { stream, schema, key_properties, bookmark_properties } => {
                fields.push(jstr("type", String::from_str("SCHEMA")));
                fields.push(jstr("stream", stream.clone()));
                fields.push((String::from_str("schema"), clone_json(schema)));
                fields.push((String::from_str("key_properties"), strs_to_json(key_properties)));
                match bookmark_properties {
                    Some(v) => {
                        fields.push((String::from_str("bookmark_properties"), strs_to_json(v)));
                    },
                    None => {},
                }
                proof {
                    let target = msg_to_jv(self@)->Obj_0;
                    assert(crate::json::view_json_fields(fields@) =~= target) by {
                        crate::json::lemma_view_json_fields_len(fields@);
                        assert forall|x: int| 0 <= x < fields@.len() implies
                            crate::json::view_json_fields(fields@)[x] == target[x] by {
                            crate::json::lemma_view_json_fields_index(fields@, x);
                        }
                    }
                }
            },
            Message::State { value } => {
                fields.push(jstr("type", String::from_str("STATE")));
                fields.push((String::from_str("value"), clone_json(value)));
                proof {
                    let target = msg_to_jv(self@)->Obj_0;
                    assert(crate::json::view_json_fields(fields@) =~= target) by {
                        crate::json::lemma_view_json_fields_len(fields@);
                        assert forall|x: int| 0 <= x < fields@.len() implies
                            crate::json::view_json_fields(fields@)[x] == target[x] by {
                            crate::json::lemma_view_json_fields_index(fields@, x);
                        }
                    }
                }
            },
        }
        Json::Obj(fields)
    }

    /// One message read from a line of wire text: exactly
    /// [`spec_decode_message`], each error on just the inputs its doc names.
    pub fn decode(s: &str) -> (r: Result<Message, DecodeError>)
        ensures
            match r {
                Ok(m) => spec_decode_message(s@) == Ok::<MessageV, DecodeError>(m@),
                Err(e) => spec_decode_message(s@) == Err::<MessageV, DecodeError>(e),
            },
    {
        match parse_json(s) {
            None => Err(DecodeError::MalformedJson),
            Some(j) => Message::from_json(&j),
        }
    }

    /// One message read from a JSON document: exactly [`jv_to_msg`].
    pub fn from_json(j: &Json) -> (r: Result<Message, DecodeError>)
        ensures
            match r {
                Ok(m) => jv_to_msg(j@) == Ok::<MessageV, DecodeError>(m@),
                Err(e) => jv_to_msg(j@) == Err::<MessageV, DecodeError>(e),
            },
    {
        let fields = match j {
            Json::Obj(fields) => fields,
            _ => {
                return Err(DecodeError::WrongFieldKind);
            },
        };
        let tv = match obj_find(fields, &String::from_str("type")) {
            None => {
                return Err(DecodeError::MissingRequiredField);
            },
            Some(idx) => &fields[idx].1,
        };
        let t = match tv {
            Json::Str(t) => t,
            _ => {
                return Err(DecodeError::UnknownMessageType);
            },
        };
        if *t == String::from_str("RECORD") {
            let stream = match obj_find(fields, &String::from_str("stream")) {
                None => {
                    return Err(DecodeError::MissingRequiredField);
                },
                Some(idx) => match &fields[idx].1 {
                    Json::Str(v) => v.clone(),
                    _ => {
                        return Err(DecodeError::WrongFieldKind);
                    },
                },
            };
            let record = match obj_find(fields, &String::from_str("record")) {
                None => {
                    return Err(DecodeError::MissingRequiredField);
                },
                Some(idx) => clone_json(&fields[idx].1),
            };
            let time_extracted = match obj_find(fields, &String::from_str("time_extracted")) {
                None => None,
                Some(idx) => match &fields[idx].1 {
                    Json::Null => None,
                    Json::Str(v) => match Timestamp::new(v.clone()) {
                        Ok(ts) => Some(ts),
                        Err(e) => {
                            return Err(e);
                        },
                    },
                    _ => {
                        return Err(DecodeError::WrongFieldKind);
                    },
                },
            };
            Ok(Message::Record { stream, record, time_extracted })
        } else if *t == String::from_str("SCHEMA") {
            let stream = match obj_find(fields, &String::from_str("stream")) {
                None => {
                    return Err(DecodeError::MissingRequiredField);
                },
                Some(idx) => match &fields[idx].1 {
                    Json::Str(v) => v.clone(),
                    _ => {
                        return Err(DecodeError::WrongFieldKind);
                    },
                },
            };
            let schema = match obj_find(fields, &String::from_str("schema")) {
                None => {
                    return Err(DecodeError::MissingRequiredField);
                },
                Some(idx) => clone_json(&fields[idx].1),
            };
            let key_properties = match obj_find(fields, &String::from_str("key_properties")) {
                None => {
                    return Err(DecodeError::MissingRequiredField);
                },
                Some(idx) => match json_to_strs(&fields[idx].1) {
                    Some(v) => v,
                    None => {
                        return Err(DecodeError::WrongFieldKind);
                    },
                },
            };
            let bookmark_properties = match obj_find(
                fields,
                &String::from_str("bookmark_properties"),
            ) {
                None => None,
                Some(idx) => match &fields[idx].1 {
                    Json::Null => None,
                    other => match json_to_strs(other) {
                        Some(v) => Some(v),
                        None => {
                            return Err(DecodeError::WrongFieldKind);
                        },
                    },
                },
            };
            Ok(Message::Schema { stream, schema, key_properties, bookmark_properties })
        } else if *t == String::from_str("STATE") {
            match obj_find(fields, &String::from_str("value")) {
                None => Err(DecodeError::MissingRequiredField),
                Some(idx) => Ok(Message::State { value: clone_json(&fields[idx].1) }),
            }
        } else {
            Err(DecodeError::UnknownMessageType)
        }
    }
}

/// A JSON array read back as a list of strings, in executable form.
pub fn json_to_strs(j: &Json) -> (r: Option<Vec<String>>)
    ensures
        match r {
            Some(v) => jv_to_strs(j@) == Some(v.deep_view()),
            None => jv_to_strs(j@) is None,
        },
{
    broadcast use crate::json::lemma_view_json_seq_index, crate::json::lemma_view_json_seq_len;

    let items = match j {
        Json::Arr(items) => items,
        _ => {
            return None;
        },
    };
    let ghost iv = view_json_seq(items@);
    let mut out: Vec<String> = Vec::new();
    let mut k: usize = 0;
    while k < items.len()
        invariant
            k <= items@.len(),
            iv == view_json_seq(items@),
            iv.len() == items@.len(),
            j@ == JsonV::Arr(iv),
            out@.len() == k,
            forall|x: int| 0 <= x < k ==> #[trigger] iv[x] is Str && out@[x]@ == iv[x]->Str_0,
        decreases items@.len() - k,
    {
        proof {
            crate::json::lemma_view_json_seq_index(items@, k as int);
        }
        match &items[k] {
            Json::Str(t) => {
                out.push(t.clone());
            },
            _ => {
                assert(!(iv[k as int] is Str));
                return None;
            },
        }
        k = k + 1;
    }
    proof {
        assert(jv_to_strs(j@) == Some(iv.map_values(|it: JsonV| it->Str_0)));
        assert(out.deep_view() =~= iv.map_values(|it: JsonV| it->Str_0));
    }
    Some(out)
}

/// Round trip: decoding the encoded text of any well-formed message gives
/// back exactly that message.
#[verifier::rlimit(100)]
pub proof fn lemma_message_round_trip(m: MessageV)
    requires
        wf_msg(m),
    ensures
        spec_decode_message(spec_encode_message(m)) == Ok::<MessageV, DecodeError>(m),
{
    reveal_strlit("type");
    reveal_strlit("stream");
    reveal_strlit("record");
    reveal_strlit("time_extracted");
    reveal_strlit("schema");
    reveal_strlit("key_properties");
    reveal_strlit("bookmark_properties");
    reveal_strlit("value");
    reveal_strlit("RECORD");
    reveal_strlit("SCHEMA");
    reveal_strlit("STATE");
    assert("stream"@ != "record"@) by {
        assert("stream"@[0] == 's');
        assert("record"@[0] == 'r');
    }
    assert("stream"@ != "schema"@) by {
        assert("stream"@[1] == 't');
        assert("schema"@[1] == 'c');
    }
    assert("record"@ != "schema"@) by {
        assert("record"@[0] == 'r');
        assert("schema"@[0] == 's');
    }
    assert("time_extracted"@ != "key_properties"@) by {
        assert("time_extracted"@[0] == 't');
        assert("key_properties"@[0] == 'k');
    }
    assert("SCHEMA"@ != "RECORD"@) by {
        assert("SCHEMA"@[0] == 'S');
        assert("RECORD"@[0] == 'R');
    }
    let j = msg_to_jv(m);
    let fields = j->Obj_0;
    assert(wf_jv(j)) by {
        match m {
            MessageV::Record { stream, record, time_extracted } => {
                crate::json::lemma_wf_fields_from(fields, 0);
            },
            MessageV::Schema { stream, schema, key_properties, bookmark_properties } => {
                assert(forall|x: int| 0 <= x < fields.len() ==> wf_jv(#[trigger] fields[x].1)) by {
                    lemma_strs_to_jv_wf(key_properties);
                    match bookmark_properties {
                        Some(b) => {
                            lemma_strs_to_jv_wf(b);
                        },
                        None => {},
                    }
                }
                crate::json::lemma_wf_fields_from(fields, 0);
            },
            MessageV::State { value } => {
                crate::json::lemma_wf_fields_from(fields, 0);
            },
        }
    }
    crate::json::lemma_sp_json_print(j);
    assert(jv_to_msg(j) == Ok::<MessageV, DecodeError>(m)) by {
        match m {
            MessageV::Record { stream, record, time_extracted } => {
                assert(fields[0] == ("type"@, JsonV::Str("RECORD"@)));
                assert(fields[1] == ("stream"@, JsonV::Str(stream)));
                assert(fields[2] == ("record"@, record));
                assert("type"@ != "time_extracted"@ && "stream"@ != "time_extracted"@ && "record"@
                    != "time_extracted"@) by {
                    assert("type"@.len() == 4 && "stream"@.len() == 6 && "record"@.len() == 6
                        && "time_extracted"@.len() == 14);
                }
                crate::json::lemma_obj_get_at(fields, "type"@, 0, 0);
                crate::json::lemma_obj_get_at(fields, "stream"@, 1, 0);
                crate::json::lemma_obj_get_at(fields, "record"@, 2, 0);
                match time_extracted {
                    Some(t) => {
                        assert(fields.len() == 4);
                        assert(fields[3] == ("time_extracted"@, JsonV::Str(t)));
                        crate::json::lemma_obj_get_at(fields, "time_extracted"@, 3, 0);
                    },
                    None => {
                        assert(fields.len() == 3);
                        crate::json::lemma_obj_get_none(fields, "time_extracted"@, 0);
                    },
                }
                assert(jv_to_record(fields) == Ok::<MessageV, DecodeError>(m));
                assert(jv_to_msg(j) == Ok::<MessageV, DecodeError>(m));
            },
            MessageV::Schema { stream, schema, key_properties, bookmark_properties } => {
                assert(fields[0] == ("type"@, JsonV::Str("SCHEMA"@)));
                assert(fields[1] == ("stream"@, JsonV::Str(stream)));
                assert(fields[2] == ("schema"@, schema));
                assert(fields[3] == ("key_properties"@, strs_to_jv(key_properties)));
                assert("type"@ != "key_properties"@ && "stream"@ != "key_properties"@ && "schema"@
                    != "key_properties"@) by {
                    assert("type"@.len() == 4 && "stream"@.len() == 6 && "schema"@.len() == 6
                        && "key_properties"@.len() == 14);
                }
                assert("type"@ != "bookmark_properties"@ && "stream"@ != "bookmark_properties"@
                    && "schema"@ != "bookmark_properties"@ && "key_properties"@
                    != "bookmark_properties"@) by {
                    assert("bookmark_properties"@.len() == 19);
                    assert("type"@.len() == 4 && "stream"@.len() == 6 && "schema"@.len() == 6
                        && "key_properties"@.len() == 14);
                }
                crate::json::lemma_obj_get_at(fields, "type"@, 0, 0);
                crate::json::lemma_obj_get_at(fields, "stream"@, 1, 0);
                crate::json::lemma_obj_get_at(fields, "schema"@, 2, 0);
                crate::json::lemma_obj_get_at(fields, "key_properties"@, 3, 0);
                lemma_strs_round_trip(key_properties);
                match bookmark_properties {
                    Some(b) => {
                        assert(fields.len() == 5);
                        assert(fields[4] == ("bookmark_properties"@, strs_to_jv(b)));
                        crate::json::lemma_obj_get_at(fields, "bookmark_properties"@, 4, 0);
                        lemma_strs_round_trip(b);
                        assert(!(strs_to_jv(b) is Null));
                    },
                    None => {
                        assert(fields.len() == 4);
                        crate::json::lemma_obj_get_none(fields, "bookmark_properties"@, 0);
                    },
                }
                assert(jv_to_schema(fields) == Ok::<MessageV, DecodeError>(m));
                assert(jv_to_msg(j) == Ok::<MessageV, DecodeError>(m));
            },
            MessageV::State { value } => {
                assert(fields[0] == ("type"@, JsonV::Str("STATE"@)));
                assert(fields[1] == ("value"@, value));
                assert("type"@ != "value"@) by {
                    assert("type"@.len() == 4 && "value"@.len() == 5);
                }
                assert("STATE"@ != "RECORD"@ && "STATE"@ != "SCHEMA"@) by {
                    assert("STATE"@.len() == 5 && "RECORD"@.len() == 6 && "SCHEMA"@.len() == 6);
                }
                crate::json::lemma_obj_get_at(fields, "type"@, 0, 0);
                crate::json::lemma_obj_get_at(fields, "value"@, 1, 0);
                assert(jv_to_msg(j) == Ok::<MessageV, DecodeError>(m));
            },
        }
    }
}

/// The JSON tree of a list of strings is well formed.
pub proof fn lemma_strs_to_jv_wf(v: Seq<Seq<char>>)
    ensures
        wf_jv(strs_to_jv(v)),
{
    let items = v.map_values(|t: Seq<char>| JsonV::Str(t));
    assert(forall|x: int| 0 <= x < items.len() ==> wf_jv(#[trigger] items[x]));
    crate::json::lemma_wf_items_from(items, 0);
}

/// Reading back the JSON tree of a list of strings gives the list.
pub proof fn lemma_strs_round_trip(v: Seq<Seq<char>>)
    ensures
        jv_to_strs(strs_to_jv(v)) == Some(v),
{
    let items = v.map_values(|t: Seq<char>| JsonV::Str(t));
    assert(forall|k: int| 0 <= k < items.len() ==> #[trigger] items[k] is Str);
    assert(items.map_values(|it: JsonV| it->Str_0) =~= v);
}

/// Omission law for a record's timestamp: unset leaves the key wholly out
/// of the wire object, set puts it in as a string, and never as `null`.
pub proof fn lemma_omission_time_extracted(
    stream: Seq<char>,
    record: JsonV,
    time_extracted: Option<Seq<char>>,
)
    ensures
        ({
            let fields = msg_to_jv(
                MessageV::Record { stream, record, time_extracted },
            )->Obj_0;
            match time_extracted {
                None => obj_get_from(fields, "time_extracted"@, 0) is None,
                Some(t) => obj_get_from(fields, "time_extracted"@, 0) == Some(JsonV::Str(t)),
            }
        }),
{
    reveal_strlit("type");
    reveal_strlit("stream");
    reveal_strlit("record");
    reveal_strlit("time_extracted");
    let fields = msg_to_jv(MessageV::Record { stream, record, time_extracted })->Obj_0;
    assert("type"@ != "time_extracted"@ && "stream"@ != "time_extracted"@ && "record"@
        != "time_extracted"@) by {
        assert("type"@.len() == 4 && "stream"@.len() == 6 && "record"@.len() == 6
            && "time_extracted"@.len() == 14);
    }
    assert(fields[0].0 == "type"@ && fields[1].0 == "stream"@ && fields[2].0 == "record"@);
    match time_extracted {
        None => {
            assert(fields.len() == 3);
            crate::json::lemma_obj_get_none(fields, "time_extracted"@, 0);
        },
        Some(t) => {
            assert(fields[3] == ("time_extracted"@, JsonV::Str(t)));
            crate::json::lemma_obj_get_at(fields, "time_extracted"@, 3, 0);
        },
    }
}

/// Omission law for a schema's bookmarks: unset leaves the key wholly out
/// of the wire object, set puts it in as an array, and never as `null`.
pub proof fn lemma_omission_bookmark_properties(
    stream: Seq<char>,
    schema: JsonV,
    key_properties: Seq<Seq<char>>,
    bookmark_properties: Option<Seq<Seq<char>>>,
)
    ensures
        ({
            let fields = msg_to_jv(
                MessageV::Schema { stream, schema, key_properties, bookmark_properties },
            )->Obj_0;
            match bookmark_properties {
                None => obj_get_from(fields, "bookmark_properties"@, 0) is None,
                Some(b) => obj_get_from(fields, "bookmark_properties"@, 0) == Some(strs_to_jv(b)),
            }
        }),
{
    reveal_strlit("type");
    reveal_strlit("stream");
    reveal_strlit("schema");
    reveal_strlit("key_properties");
    reveal_strlit("bookmark_properties");
    let fields = msg_to_jv(
        MessageV::Schema { stream, schema, key_properties, bookmark_properties },
    )->Obj_0;
    assert("type"@ != "bookmark_properties"@ && "stream"@ != "bookmark_properties"@ && "schema"@
        != "bookmark_properties"@ && "key_properties"@ != "bookmark_properties"@) by {
        assert("bookmark_properties"@.len() == 19);
        assert("type"@.len() == 4 && "stream"@.len() == 6 && "schema"@.len() == 6
            && "key_properties"@.len() == 14);
    }
    assert(fields[0].0 == "type"@ && fields[1].0 == "stream"@ && fields[2].0 == "schema"@
        && fields[3].0 == "key_properties"@);
    match bookmark_properties {
        None => {
            assert(fields.len() == 4);
            crate::json::lemma_obj_get_none(fields, "bookmark_properties"@, 0);
        },
        Some(b) => {
            assert(fields[4] == ("bookmark_properties"@, strs_to_jv(b)));
            crate::json::lemma_obj_get_at(fields, "bookmark_properties"@, 4, 0);
        },
    }
}

} // verus!
