//! Operational telemetry: the metric object carried on the side channel.

use vstd::prelude::*;
use crate::json::Json;
use crate::json::JsonV;
use crate::json::wf_jv;
use crate::json::wf_num_lit;
use crate::json::print_jv;
use crate::json::sp_json;
use crate::json::obj_get_from;
use crate::json::encode_json;
use crate::json::parse_json;
use crate::json::clone_json;
use crate::json::obj_find;
use crate::error::DecodeError;

verus! {

broadcast use vstd::std_specs::vec::group_vec_axioms;

/// The kind of measurement a metric reports.
#[derive(Clone, Copy, Debug, PartialEq, Eq, Structural)]
pub enum MetricType {
    Counter,
    Timer,
}

/// A metric's value: a bare JSON number. An integer keeps its integer
/// form; a fractional value is held as its exact number literal, so that
/// an integer never comes back with a decimal point.
pub enum MetricValue {
    Integer(i64),
    Float(String),
}

/// The mathematical shape of a [`MetricValue`].
pub enum MetricValueV {
    Integer(int),
    Float(Seq<char>),
}

impl View for MetricValue {
    type V = MetricValueV;

    open spec fn view(&self) -> MetricValueV {
        match self {
            MetricValue::Integer(i) => MetricValueV::Integer(*i as int),
            MetricValue::Float(t) => MetricValueV::Float(t@),
        }
    }
}

/// One telemetry data point: kind, name, value and free-form tags.
pub struct Metric {
    pub metric_type: MetricType,
    /// The name of the measurement; by convention letters, digits,
    /// underscore and dash, not enforced here.
    pub metric: String,
    pub value: MetricValue,
    /// Free-form tags describing the data point; keys follow the same
    /// convention as the name, not enforced here.
    pub tags: Json,
}

/// The mathematical shape of a [`Metric`].
pub struct MetricV {
    pub metric_type: MetricType,
    pub metric: Seq<char>,
    pub value: MetricValueV,
    pub tags: JsonV,
}

impl View for Metric {
    type V = MetricV;

    open spec fn view(&self) -> MetricV {
        MetricV {
            metric_type: self.metric_type,
            metric: self.metric@,
            value: self.value@,
            tags: self.tags@,
        }
    }
}

/// The lowercase wire token of a metric kind.
pub open spec fn metric_type_token(t: MetricType) -> Seq<char> {
    match t {
        MetricType::Counter => "counter"@,
        MetricType::Timer => "timer"@,
    }
}

/// The JSON number a metric value serializes to.
pub open spec fn metric_value_to_jv(v: MetricValueV) -> JsonV {
    match v {
        MetricValueV::Integer(i) => JsonV::Int(i),
        MetricValueV::Float(t) => JsonV::Num(t),
    }
}

/// The JSON object a metric serializes to: `type`, `metric`, `value`,
/// `tags`, in that order, no envelope around it.
pub open spec fn metric_to_jv(m: MetricV) -> JsonV {
    JsonV::Obj(
        seq![
            ("type"@, JsonV::Str(metric_type_token(m.metric_type))),
            ("metric"@, JsonV::Str(m.metric)),
            ("value"@, metric_value_to_jv(m.value)),
            ("tags"@, m.tags),
        ],
    )
}

/// A metric the encoder accepts: an integer within `i64`, or a fractional
/// value held as a sound non-integer number literal; tags well formed.
pub open spec fn wf_metric(m: MetricV) -> bool {
    &&& match m.value {
        MetricValueV::Integer(i) => -0x8000_0000_0000_0000 <= i <= 0x7fff_ffff_ffff_ffff,
        MetricValueV::Float(t) => wf_num_lit(t),
    }
    &&& wf_jv(m.tags)
}

/// The exact wire text of a metric.
pub open spec fn spec_encode_metric(m: MetricV) -> Seq<char> {
    print_jv(metric_to_jv(m))
}

/// The metric a JSON tree decodes to: a number literal without fraction or
/// exponent is the integer variant, any other number the float variant; a
/// `type` member that is present but is neither recognized token, of
/// whatever JSON kind, is an unknown metric type.
pub open spec fn jv_to_metric(j: JsonV) -> Result<MetricV, DecodeError> {
    match j {
        JsonV::Obj(fields) => match obj_get_from(fields, "type"@, 0) {
            None => Err(DecodeError::MissingRequiredField),
            Some(JsonV::Str(t)) => {
                let metric_type = if t == "counter"@ {
                    Some(MetricType::Counter)
                } else if t == "timer"@ {
                    Some(MetricType::Timer)
                } else {
                    None
                };
                match metric_type {
                    None => Err(DecodeError::UnknownMetricType),
                    Some(mt) => match obj_get_from(fields, "metric"@, 0) {
                        None => Err(DecodeError::MissingRequiredField),
                        Some(JsonV::Str(name)) => match obj_get_from(fields, "value"@, 0) {
                            None => Err(DecodeError::MissingRequiredField),
                            Some(JsonV::Int(i)) => match obj_get_from(fields, "tags"@, 0) {
                                None => Err(DecodeError::MissingRequiredField),
                                Some(tags) => Ok(
                                    MetricV {
                                        metric_type: mt,
                                        metric: name,
                                        value: MetricValueV::Integer(i),
                                        tags,
                                    },
                                ),
                            },
                            Some(JsonV::Num(t2)) => match obj_get_from(fields, "tags"@, 0) {
                                None => Err(DecodeError::MissingRequiredField),
                                Some(tags) => Ok(
                                    MetricV {
                                        metric_type: mt,
                                        metric: name,
                                        value: MetricValueV::Float(t2),
                                        tags,
                                    },
                                ),
                            },
                            Some(_) => Err(DecodeError::WrongFieldKind),
                        },
                        Some(_) => Err(DecodeError::WrongFieldKind),
                    },
                }
            },
            Some(_) => Err(DecodeError::UnknownMetricType),
        },
        _ => Err(DecodeError::WrongFieldKind),
    }
}

/// What a piece of wire text decodes to.
pub open spec fn spec_decode_metric(s: Seq<char>) -> Result<MetricV, DecodeError> {
    match sp_json(s) {
        None => Err(DecodeError::MalformedJson),
        Some(j) => jv_to_metric(j),
    }
}

impl Metric {
    /// Whether the encoder accepts this metric; see [`wf_metric`].
    pub open spec fn wf(&self) -> bool {
        wf_metric(self@)
    }

    /// The wire text of this metric: exactly [`spec_encode_metric`], a bare
    /// JSON object for the caller to frame into its log line.
    pub fn encode(&self) -> (r: String)
        ensures
            r@ == spec_encode_metric(self@),
    {
        let value = match &self.value {
            MetricValue::Integer(i) => Json::Int(*i),
            MetricValue::Float(t) => Json::Num(t.clone()),
        };
        let token = match self.metric_type {
            MetricType::Counter => String::from_str("counter"),
            MetricType::Timer => String::from_str("timer"),
        };
        let mut fields: Vec<(String, Json)> = Vec::new();
        fields.push((String::from_str("type"), Json::Str(token)));
        fields.push((String::from_str("metric"), Json::Str(self.metric.clone())));
        fields.push((String::from_str("value"), value));
        fields.push((String::from_str("tags"), clone_json(&self.tags)));
        let j = Json::Obj(fields);
        proof {
            let target = metric_to_jv(self@)->Obj_0;
            assert(crate::json::view_json_fields(fields@) =~= target) by {
                crate::json::lemma_view_json_fields_len(fields@);
                assert forall|x: int| 0 <= x < fields@.len() implies crate::json::view_json_fields(
                    fields@,
                )[x] == target[x] by {
                    crate::json::lemma_view_json_fields_index(fields@, x);
                }
            }
        }
        encode_json(&j)
    }

    /// One metric read from wire text: exactly [`spec_decode_metric`].
    pub fn decode(s: &str) -> (r: Result<Metric, DecodeError>)
        ensures
            match r {
                Ok(m) => spec_decode_metric(s@) == Ok::<MetricV, DecodeError>(m@),
                Err(e) => spec_decode_metric(s@) == Err::<MetricV, DecodeError>(e),
            },
    {
        let j = match parse_json(s) {
            None => {
                return Err(DecodeError::MalformedJson);
            },
            Some(j) => j,
        };
        let fields = match &j {
            Json::Obj(fields) => fields,
            _ => {
                return Err(DecodeError::WrongFieldKind);
            },
        };
        let t = match obj_find(fields, &String::from_str("type")) {
            None => {
                return Err(DecodeError::MissingRequiredField);
            },
            Some(idx) => match &fields[idx].1 {
                Json::Str(t) => t,
                _ => {
                    return Err(DecodeError::UnknownMetricType);
                },
            },
        };
        let metric_type = if *t == String::from_str("counter") {
            MetricType::Counter
        } else if *t == String::from_str("timer") {
            MetricType::Timer
        } else {
            return Err(DecodeError::UnknownMetricType);
        };
        let metric = match obj_find(fields, &String::from_str("metric")) {
            None => {
                return Err(DecodeError::MissingRequiredField);
            },
            Some(idx) => match &fields[idx].1 {
                Json::Str(name) => name.clone(),
                _ => {
                    return Err(DecodeError::WrongFieldKind);
                },
            },
        };
        let value = match obj_find(fields, &String::from_str("value")) {
            None => {
                return Err(DecodeError::MissingRequiredField);
            },
            Some(idx) => match &fields[idx].1 {
                Json::Int(i) => MetricValue::Integer(*i),
                Json::Num(t2) => MetricValue::Float(t2.clone()),
                _ => {
                    return Err(DecodeError::WrongFieldKind);
                },
            },
        };
        let tags = match obj_find(fields, &String::from_str("tags")) {
            None => {
                return Err(DecodeError::MissingRequiredField);
            },
            Some(idx) => clone_json(&fields[idx].1),
        };
        Ok(Metric { metric_type, metric, value, tags })
    }
}

/// Round trip: decoding the encoded text of any well-formed metric gives
/// back exactly that metric.
pub proof fn lemma_metric_round_trip(m: MetricV)
    requires
        wf_metric(m),
    ensures
        spec_decode_metric(spec_encode_metric(m)) == Ok::<MetricV, DecodeError>(m),
{
    reveal_strlit("type");
    reveal_strlit("metric");
    reveal_strlit("value");
    reveal_strlit("tags");
    reveal_strlit("counter");
    reveal_strlit("timer");
    let j = metric_to_jv(m);
    let fields = j->Obj_0;
    assert(wf_jv(j)) by {
        assert(wf_jv(metric_value_to_jv(m.value)));
        crate::json::lemma_wf_fields_from(fields, 0);
    }
    crate::json::lemma_sp_json_print(j);
    assert(jv_to_metric(j) == Ok::<MetricV, DecodeError>(m)) by {
        assert(fields[0] == ("type"@, JsonV::Str(metric_type_token(m.metric_type))));
        assert(fields[1] == ("metric"@, JsonV::Str(m.metric)));
        assert(fields[2] == ("value"@, metric_value_to_jv(m.value)));
        assert(fields[3] == ("tags"@, m.tags));
        assert("type"@ != "metric"@ && "value"@ != "metric"@) by {
            assert("type"@.len() == 4 && "metric"@.len() == 6 && "value"@.len() == 5);
        }
        assert("type"@ != "value"@ && "type"@ != "tags"@ && "value"@ != "tags"@ && "metric"@
            != "tags"@) by {
            assert("type"@.len() == 4 && "tags"@.len() == 4 && "value"@.len() == 5 && "metric"@.len()
                == 6);
            assert("type"@[1] == 'y' && "tags"@[1] == 'a');
        }
        assert("counter"@ != "timer"@) by {
            assert("counter"@.len() == 7 && "timer"@.len() == 5);
        }
        crate::json::lemma_obj_get_at(fields, "type"@, 0, 0);
        crate::json::lemma_obj_get_at(fields, "metric"@, 1, 0);
        crate::json::lemma_obj_get_at(fields, "value"@, 2, 0);
        crate::json::lemma_obj_get_at(fields, "tags"@, 3, 0);
    }
}

} // verus!
