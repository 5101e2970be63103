//! The catalog: the document that describes discoverable data sources and
//! their selection and replication configuration.

use vstd::prelude::*;
use crate::json::Json;
use crate::json::JsonV;
use crate::json::wf_jv;
use crate::json::print_jv;
use crate::json::sp_json;
use crate::json::obj_get_from;
use crate::json::view_json_seq;
use crate::json::view_json_fields;
use crate::json::encode_json;
use crate::json::parse_json;
use crate::json::clone_json;
use crate::json::obj_find;
use crate::message::strs_to_jv;
use crate::message::jv_to_strs;
use crate::message::strs_to_json;
use crate::message::json_to_strs;
use crate::message::opt_member;
use crate::json::is_digit;
use crate::json::digits_val;
use crate::error::DecodeError;

verus! {

broadcast use vstd::std_specs::vec::group_vec_axioms;

/// Whether a stream or property is offered for selection, always included,
/// or never offered. Lowercase tokens on the wire.
#[derive(Clone, Copy, Debug, PartialEq, Eq, Structural)]
pub enum Include {
    Available,
    Automatic,
    Unsupported,
}

impl Default for Include {
    /// `available` is assumed when nothing says otherwise.
    fn default() -> (r: Self)
        ensures
            r == Include::Available,
    {
        Self::Available
    }
}

/// How a stream's data is synchronized. Exact-case tokens on the wire.
#[derive(Clone, Copy, Debug, PartialEq, Eq, Structural)]
pub enum ReplicationMethod {
    FullTable,
    Incremental,
    LogBased,
}

/// The wire token of an inclusion value.
pub open spec fn include_token(v: Include) -> Seq<char> {
    match v {
        Include::Available => "available"@,
        Include::Automatic => "automatic"@,
        Include::Unsupported => "unsupported"@,
    }
}

/// The wire token of a replication method.
pub open spec fn method_token(v: ReplicationMethod) -> Seq<char> {
    match v {
        ReplicationMethod::FullTable => "FULL_TABLE"@,
        ReplicationMethod::Incremental => "INCREMENTAL"@,
        ReplicationMethod::LogBased => "LOG_BASED"@,
    }
}

/// The inclusion value of a wire token, if it is one of the three.
pub open spec fn token_include(t: Seq<char>) -> Option<Include> {
    if t == "available"@ {
        Some(Include::Available)
    } else if t == "automatic"@ {
        Some(Include::Automatic)
    } else if t == "unsupported"@ {
        Some(Include::Unsupported)
    } else {
        None
    }
}

/// The replication method of a wire token, if it is one of the three.
pub open spec fn token_method(t: Seq<char>) -> Option<ReplicationMethod> {
    if t == "FULL_TABLE"@ {
        Some(ReplicationMethod::FullTable)
    } else if t == "INCREMENTAL"@ {
        Some(ReplicationMethod::Incremental)
    } else if t == "LOG_BASED"@ {
        Some(ReplicationMethod::LogBased)
    } else {
        None
    }
}

fn include_to_json(v: Include) -> (r: Json)
    ensures
        r@ == JsonV::Str(include_token(v)),
{
    match v {
        Include::Available => Json::Str(String::from_str("available")),
        Include::Automatic => Json::Str(String::from_str("automatic")),
        Include::Unsupported => Json::Str(String::from_str("unsupported")),
    }
}

fn method_to_json(v: ReplicationMethod) -> (r: Json)
    ensures
        r@ == JsonV::Str(method_token(v)),
{
    match v {
        ReplicationMethod::FullTable => Json::Str(String::from_str("FULL_TABLE")),
        ReplicationMethod::Incremental => Json::Str(String::from_str("INCREMENTAL")),
        ReplicationMethod::LogBased => Json::Str(String::from_str("LOG_BASED")),
    }
}

fn json_to_include(j: &Json) -> (r: Option<Include>)
    ensures
        match j@ {
            JsonV::Str(t) => r == token_include(t),
            _ => r is None,
        },
{
    match j {
        Json::Str(t) => {
            if *t == String::from_str("available") {
                Some(Include::Available)
            } else if *t == String::from_str("automatic") {
                Some(Include::Automatic)
            } else if *t == String::from_str("unsupported") {
                Some(Include::Unsupported)
            } else {
                None
            }
        },
        _ => None,
    }
}

fn json_to_method(j: &Json) -> (r: Option<ReplicationMethod>)
    ensures
        match j@ {
            JsonV::Str(t) => r == token_method(t),
            _ => r is None,
        },
{
    match j {
        Json::Str(t) => {
            if *t == String::from_str("FULL_TABLE") {
                Some(ReplicationMethod::FullTable)
            } else if *t == String::from_str("INCREMENTAL") {
                Some(ReplicationMethod::Incremental)
            } else if *t == String::from_str("LOG_BASED") {
                Some(ReplicationMethod::LogBased)
            } else {
                None
            }
        },
        _ => None,
    }
}

/// Metadata supplied to the tap from outside, never inferred from the
/// source. Every field is optional and absent fields are omitted on the
/// wire, never written as `null`.
pub struct NonDiscoverableMetadata {
    pub selected: Option<bool>,
    pub replication_method: Option<ReplicationMethod>,
    pub replication_key: Option<String>,
    pub view_key_properties: Option<Vec<String>>,
}

/// The mathematical shape of a [`NonDiscoverableMetadata`].
pub struct NonDiscoverableMetadataV {
    pub selected: Option<bool>,
    pub replication_method: Option<ReplicationMethod>,
    pub replication_key: Option<Seq<char>>,
    pub view_key_properties: Option<Seq<Seq<char>>>,
}

impl View for NonDiscoverableMetadata {
    type V = NonDiscoverableMetadataV;

    open spec fn view(&self) -> NonDiscoverableMetadataV {
        NonDiscoverableMetadataV {
            selected: self.selected,
            replication_method: self.replication_method,
            replication_key: match &self.replication_key {
                Some(k) => Some(k@),
                None => None,
            },
            view_key_properties: match &self.view_key_properties {
                Some(v) => Some(v.deep_view()),
                None => None,
            },
        }
    }
}

/// The wire object of non-discoverable metadata: set fields only, in
/// declaration order, hyphenated wire names.
pub open spec fn ndmeta_to_jv(m: NonDiscoverableMetadataV) -> JsonV {
    JsonV::Obj(
        (match m.selected {
            Some(b) => seq![("selected"@, JsonV::Bool(b))],
            None => Seq::empty(),
        }) + (match m.replication_method {
            Some(v) => seq![("replication-method"@, JsonV::Str(method_token(v)))],
            None => Seq::empty(),
        }) + (match m.replication_key {
            Some(k) => seq![("replication-key"@, JsonV::Str(k))],
            None => Seq::empty(),
        }) + (match m.view_key_properties {
            Some(v) => seq![("view-key-properties"@, strs_to_jv(v))],
            None => Seq::empty(),
        }),
    )
}

/// Non-discoverable metadata read from a metadata object: absent and
/// `null` fields are unset, a set field of the wrong kind or an unknown
/// replication token is a schema violation; unknown keys are ignored.
pub open spec fn jv_to_ndmeta(j: JsonV) -> Result<NonDiscoverableMetadataV, DecodeError> {
    match j {
        JsonV::Obj(fields) => {
            let sel = match opt_member(fields, "selected"@) {
                None => Ok(None),
                Some(JsonV::Bool(b)) => Ok(Some(b)),
                Some(_) => Err(DecodeError::SchemaViolation),
            };
            let rm = match opt_member(fields, "replication-method"@) {
                None => Ok(None),
                Some(JsonV::Str(t)) => match token_method(t) {
                    Some(v) => Ok(Some(v)),
                    None => Err(DecodeError::SchemaViolation),
                },
                Some(_) => Err(DecodeError::SchemaViolation),
            };
            let rk = match opt_member(fields, "replication-key"@) {
                None => Ok(None),
                Some(JsonV::Str(t)) => Ok(Some(t)),
                Some(_) => Err(DecodeError::SchemaViolation),
            };
            let vkp = match opt_member(fields, "view-key-properties"@) {
                None => Ok(None),
                Some(v) => match jv_to_strs(v) {
                    Some(l) => Ok(Some(l)),
                    None => Err(DecodeError::SchemaViolation),
                },
            };
            match (sel, rm, rk, vkp) {
                (
                    Ok(selected),
                    Ok(replication_method),
                    Ok(replication_key),
                    Ok(view_key_properties),
                ) => Ok(
                    NonDiscoverableMetadataV {
                        selected,
                        replication_method,
                        replication_key,
                        view_key_properties,
                    },
                ),
                (Err(e), _, _, _) => Err(e),
                (_, Err(e), _, _) => Err(e),
                (_, _, Err(e), _) => Err(e),
                (_, _, _, Err(e)) => Err(e),
            }
        },
        _ => Err(DecodeError::SchemaViolation),
    }
}

impl NonDiscoverableMetadata {
    /// The wire object of this metadata: exactly [`ndmeta_to_jv`].
    pub fn to_json(&self) -> (r: Json)
        ensures
            r@ == ndmeta_to_jv(self@),
    {
        let mut fields: Vec<(String, Json)> = Vec::new();
        match &self.selected {
            Some(b) => {
                fields.push((String::from_str("selected"), Json::Bool(*b)));
            },
            None => {},
        }
        match &self.replication_method {
            Some(v) => {
                fields.push((String::from_str("replication-method"), method_to_json(*v)));
            },
            None => {},
        }
        match &self.replication_key {
            Some(k) => {
                fields.push((String::from_str("replication-key"), Json::Str(k.clone())));
            },
            None => {},
        }
        match &self.view_key_properties {
            Some(v) => {
                fields.push((String::from_str("view-key-properties"), strs_to_json(v)));
            },
            None => {},
        }
        proof {
            let target = ndmeta_to_jv(self@)->Obj_0;
            assert(view_json_fields(fields@) =~= target) by {
                crate::json::lemma_view_json_fields_len(fields@);
                assert forall|x: int| 0 <= x < fields@.len() implies view_json_fields(fields@)[x]
                    == target[x] by {
                    crate::json::lemma_view_json_fields_index(fields@, x);
                }
            }
        }
        Json::Obj(fields)
    }

    /// Non-discoverable metadata read from a metadata object: exactly
    /// [`jv_to_ndmeta`].
    pub fn from_json(j: &Json) -> (r: Result<NonDiscoverableMetadata, DecodeError>)
        ensures
            match r {
                Ok(m) => jv_to_ndmeta(j@) == Ok::<NonDiscoverableMetadataV, DecodeError>(m@),
                Err(e) => jv_to_ndmeta(j@) == Err::<NonDiscoverableMetadataV, DecodeError>(e),
            },
    {
        let fields = match j {
            Json::Obj(fields) => fields,
            _ => {
                return Err(DecodeError::SchemaViolation);
            },
        };
        let selected = match obj_find(fields, &String::from_str("selected")) {
            None => None,
            Some(idx) => match &fields[idx].1 {
                Json::Null => None,
                Json::Bool(b) => Some(*b),
                _ => {
                    return Err(DecodeError::SchemaViolation);
                },
            },
        };
        let replication_method = match obj_find(fields, &String::from_str("replication-method")) {
            None => None,
            Some(idx) => match &fields[idx].1 {
                Json::Null => None,
                other => match json_to_method(other) {
                    Some(v) => Some(v),
                    None => {
                        return Err(DecodeError::SchemaViolation);
                    },
                },
            },
        };
        let replication_key = match obj_find(fields, &String::from_str("replication-key")) {
            None => None,
            Some(idx) => match &fields[idx].1 {
                Json::Null => None,
                Json::Str(t) => Some(t.clone()),
                _ => {
                    return Err(DecodeError::SchemaViolation);
                },
            },
        };
        let view_key_properties = match obj_find(fields, &String::from_str("view-key-properties")) {
            None => None,
            Some(idx) => match &fields[idx].1 {
                Json::Null => None,
                other => match json_to_strs(other) {
                    Some(v) => Some(v),
                    None => {
                        return Err(DecodeError::SchemaViolation);
                    },
                },
            },
        };
        Ok(NonDiscoverableMetadata { selected, replication_method, replication_key, view_key_properties })
    }
}

/// Metadata a tap can infer from the source system. `inclusion` defaults
/// to `available` when the key is absent; the other absent fields take
/// their empty or unset defaults at decode time.
pub struct DiscoverableMetadata {
    pub inclusion: Include,
    pub selected_by_default: bool,
    pub valid_replication_keys: Vec<String>,
    pub forced_replication_method: Option<ReplicationMethod>,
    pub table_key_properties: Vec<String>,
    pub schema_name: Option<String>,
    pub is_view: Option<bool>,
    pub row_count: Option<u64>,
    pub database_name: Option<String>,
    pub sql_database: Option<String>,
}

/// The mathematical shape of a [`DiscoverableMetadata`].
pub struct DiscoverableMetadataV {
    pub inclusion: Include,
    pub selected_by_default: bool,
    pub valid_replication_keys: Seq<Seq<char>>,
    pub forced_replication_method: Option<ReplicationMethod>,
    pub table_key_properties: Seq<Seq<char>>,
    pub schema_name: Option<Seq<char>>,
    pub is_view: Option<bool>,
    pub row_count: Option<int>,
    pub database_name: Option<Seq<char>>,
    pub sql_database: Option<Seq<char>>,
}

impl View for DiscoverableMetadata {
    type V = DiscoverableMetadataV;

    open spec fn view(&self) -> DiscoverableMetadataV {
        DiscoverableMetadataV {
            inclusion: self.inclusion,
            selected_by_default: self.selected_by_default,
            valid_replication_keys: self.valid_replication_keys.deep_view(),
            forced_replication_method: self.forced_replication_method,
            table_key_properties: self.table_key_properties.deep_view(),
            schema_name: match &self.schema_name {
                Some(t) => Some(t@),
                None => None,
            },
            is_view: self.is_view,
            row_count: match self.row_count {
                Some(n) => Some(n as int),
                None => None,
            },
            database_name: match &self.database_name {
                Some(t) => Some(t@),
                None => None,
            },
            sql_database: match &self.sql_database {
                Some(t) => Some(t@),
                None => None,
            },
        }
    }
}

/// The wire object of discoverable metadata: the always-present fields in
/// declaration order, then the set optional fields, hyphenated wire names,
/// absent fields omitted.
pub open spec fn dmeta_to_jv(m: DiscoverableMetadataV) -> JsonV {
    JsonV::Obj(
        seq![
            ("inclusion"@, JsonV::Str(include_token(m.inclusion))),
            ("selected-by-default"@, JsonV::Bool(m.selected_by_default)),
            ("valid-replication-keys"@, strs_to_jv(m.valid_replication_keys)),
        ] + (match m.forced_replication_method {
            Some(v) => seq![("forced-replication-method"@, JsonV::Str(method_token(v)))],
            None => Seq::empty(),
        }) + seq![("table-key-properties"@, strs_to_jv(m.table_key_properties))] + (
        match m.schema_name {
            Some(t) => seq![("schema-name"@, JsonV::Str(t))],
            None => Seq::empty(),
        }) + (match m.is_view {
            Some(b) => seq![("is-view"@, JsonV::Bool(b))],
            None => Seq::empty(),
        }) + (match m.row_count {
            Some(n) => seq![("row-count"@, JsonV::Int(n))],
            None => Seq::empty(),
        }) + (match m.database_name {
            Some(t) => seq![("database-name"@, JsonV::Str(t))],
            None => Seq::empty(),
        }) + (match m.sql_database {
            Some(t) => seq![("sql-datatype"@, JsonV::Str(t))],
            None => Seq::empty(),
        }),
    )
}

/// The value of a plain decimal literal that fits the row-count field:
/// all digits, no leading zero unless it is `0` itself, at most the
/// largest unsigned 64-bit value.
pub open spec fn dec_u64_lit(t: Seq<char>) -> Option<int> {
    if t.len() > 0 && (forall|k: int| 0 <= k < t.len() ==> is_digit(#[trigger] t[k])) && (t[0]
        != '0' || t.len() == 1) && digits_val(t, 0, t.len() as int) <= 0xffff_ffff_ffff_ffff {
        Some(digits_val(t, 0, t.len() as int))
    } else {
        None
    }
}

/// Discoverable metadata read from a metadata object: an absent or `null`
/// `inclusion` is `available`, the other absent fields take false, empty or
/// unset; a set field of the wrong kind, an unknown token, or a row count
/// that is negative or past the unsigned 64-bit range is a schema
/// violation; unknown keys are ignored.
pub open spec fn jv_to_dmeta(j: JsonV) -> Result<DiscoverableMetadataV, DecodeError> {
    match j {
        JsonV::Obj(fields) => {
            let inc = match opt_member(fields, "inclusion"@) {
                None => Ok(Include::Available),
                Some(JsonV::Str(t)) => match token_include(t) {
                    Some(v) => Ok(v),
                    None => Err(DecodeError::SchemaViolation),
                },
                Some(_) => Err(DecodeError::SchemaViolation),
            };
            let sbd = match opt_member(fields, "selected-by-default"@) {
                None => Ok(false),
                Some(JsonV::Bool(b)) => Ok(b),
                Some(_) => Err(DecodeError::SchemaViolation),
            };
            let vrk = match opt_member(fields, "valid-replication-keys"@) {
                None => Ok(Seq::empty()),
                Some(v) => match jv_to_strs(v) {
                    Some(l) => Ok(l),
                    None => Err(DecodeError::SchemaViolation),
                },
            };
            let frm = match opt_member(fields, "forced-replication-method"@) {
                None => Ok(None),
                Some(JsonV::Str(t)) => match token_method(t) {
                    Some(v) => Ok(Some(v)),
                    None => Err(DecodeError::SchemaViolation),
                },
                Some(_) => Err(DecodeError::SchemaViolation),
            };
            let tkp = match opt_member(fields, "table-key-properties"@) {
                None => Ok(Seq::empty()),
                Some(v) => match jv_to_strs(v) {
                    Some(l) => Ok(l),
                    None => Err(DecodeError::SchemaViolation),
                },
            };
            let sn = match opt_member(fields, "schema-name"@) {
                None => Ok(None),
                Some(JsonV::Str(t)) => Ok(Some(t)),
                Some(_) => Err(DecodeError::SchemaViolation),
            };
            let iv = match opt_member(fields, "is-view"@) {
                None => Ok(None),
                Some(JsonV::Bool(b)) => Ok(Some(b)),
                Some(_) => Err(DecodeError::SchemaViolation),
            };
            let rc = match opt_member(fields, "row-count"@) {
                None => Ok(None),
                Some(JsonV::Int(n)) => if 0 <= n {
                    Ok(Some(n))
                } else {
                    Err(DecodeError::SchemaViolation)
                },
                Some(JsonV::Num(t)) => match dec_u64_lit(t) {
                    Some(v) => Ok(Some(v)),
                    None => Err(DecodeError::SchemaViolation),
                },
                Some(_) => Err(DecodeError::SchemaViolation),
            };
            let dbn = match opt_member(fields, "database-name"@) {
                None => Ok(None),
                Some(JsonV::Str(t)) => Ok(Some(t)),
                Some(_) => Err(DecodeError::SchemaViolation),
            };
            let sdt = match opt_member(fields, "sql-datatype"@) {
                None => Ok(None),
                Some(JsonV::Str(t)) => Ok(Some(t)),
                Some(_) => Err(DecodeError::SchemaViolation),
            };
            if inc is Err {
                Err(inc->Err_0)
            } else if sbd is Err {
                Err(sbd->Err_0)
            } else if vrk is Err {
                Err(vrk->Err_0)
            } else if frm is Err {
                Err(frm->Err_0)
            } else if tkp is Err {
                Err(tkp->Err_0)
            } else if sn is Err {
                Err(sn->Err_0)
            } else if iv is Err {
                Err(iv->Err_0)
            } else if rc is Err {
                Err(rc->Err_0)
            } else if dbn is Err {
                Err(dbn->Err_0)
            } else if sdt is Err {
                Err(sdt->Err_0)
            } else {
                Ok(
                    DiscoverableMetadataV {
                        inclusion: inc->Ok_0,
                        selected_by_default: sbd->Ok_0,
                        valid_replication_keys: vrk->Ok_0,
                        forced_replication_method: frm->Ok_0,
                        table_key_properties: tkp->Ok_0,
                        schema_name: sn->Ok_0,
                        is_view: iv->Ok_0,
                        row_count: rc->Ok_0,
                        database_name: dbn->Ok_0,
                        sql_database: sdt->Ok_0,
                    },
                )
            }
        },
        _ => Err(DecodeError::SchemaViolation),
    }
}

/// The value of a plain decimal literal fitting `u64`, in executable form.
fn dec_u64_of(t: &String) -> (r: Option<u64>)
    ensures
        match r {
            Some(v) => dec_u64_lit(t@) == Some(v as int),
            None => dec_u64_lit(t@) is None,
        },
{
    let cs = crate::json::str_chars(t.as_str());
    let n = cs.len();
    if n == 0 {
        return None;
    }
    if n > 1 && cs[0] == '0' {
        return None;
    }
    let mut acc: u128 = 0;
    let mut big = false;
    let mut x: usize = 0;
    while x < n
        invariant
            x <= n == cs@.len(),
            cs@ == t@,
            forall|k: int| 0 <= k < x ==> is_digit(#[trigger] cs@[k]),
            !big ==> acc == digits_val(cs@, 0, x as int) && acc <= 0xffff_ffff_ffff_ffff,
            big ==> digits_val(cs@, 0, x as int) > 0xffff_ffff_ffff_ffff,
        decreases n - x,
    {
        let c = cs[x];
        if !(c >= '0' && c <= '9') {
            assert(!is_digit(cs@[x as int]));
            assert(!is_digit(t@[x as int]));
            return None;
        }
        proof {
            crate::json::lemma_digits_val_nonneg(cs@, 0, x as int);
        }
        if big {
            proof {
                crate::json::lemma_digits_val_mono(cs@, 0, x as int, x + 1);
            }
        } else {
            acc = acc * 10 + (c as u32 - '0' as u32) as u128;
            if acc > 0xffff_ffff_ffff_ffff {
                big = true;
            }
        }
        x = x + 1;
    }
    if big {
        return None;
    }
    Some(acc as u64)
}

/// Default inclusion: reading any discoverable metadata object that lacks
/// the `inclusion` key, when it succeeds, yields `available`.
pub proof fn lemma_default_inclusion(fields: Seq<(Seq<char>, JsonV)>)
    requires
        opt_member(fields, "inclusion"@) is None,
        jv_to_dmeta(JsonV::Obj(fields)) is Ok,
    ensures
        jv_to_dmeta(JsonV::Obj(fields))->Ok_0.inclusion == Include::Available,
{
}

impl DiscoverableMetadata {
    /// Whether the row count fits the signed wire integer; every decoded
    /// value does, and the encoder asks it of constructed ones.
    pub open spec fn wf(&self) -> bool {
        match self.row_count {
            Some(n) => n <= 0x7fff_ffff_ffff_ffff,
            None => true,
        }
    }

    /// The wire object of this metadata: exactly [`dmeta_to_jv`].
    #[verifier::rlimit(100)]
    #[verifier::spinoff_prover]
    pub fn to_json(&self) -> (r: Json)
        requires
            self.wf(),
        ensures
            r@ == dmeta_to_jv(self@),
    {
        let mut fields: Vec<(String, Json)> = Vec::new();
        fields.push((String::from_str("inclusion"), include_to_json(self.inclusion)));
        fields.push((String::from_str("selected-by-default"), Json::Bool(self.selected_by_default)));
        fields.push((
            String::from_str("valid-replication-keys"),
            strs_to_json(&self.valid_replication_keys),
        ));
        match &self.forced_replication_method {
            Some(v) => {
                fields.push((String::from_str("forced-replication-method"), method_to_json(*v)));
            },
            None => {},
        }
        fields.push((
            String::from_str("table-key-properties"),
            strs_to_json(&self.table_key_properties),
        ));
        match &self.schema_name {
            Some(t) => {
                fields.push((String::from_str("schema-name"), Json::Str(t.clone())));
            },
            None => {},
        }
        match &self.is_view {
            Some(b) => {
                fields.push((String::from_str("is-view"), Json::Bool(*b)));
            },
            None => {},
        }
        match &self.row_count {
            Some(n) => {
                fields.push((String::from_str("row-count"), Json::Int(*n as i64)));
            },
            None => {},
        }
        match &self.database_name {
            Some(t) => {
                fields.push((String::from_str("database-name"), Json::Str(t.clone())));
            },
            None => {},
        }
        match &self.sql_database {
            Some(t) => {
                fields.push((String::from_str("sql-datatype"), Json::Str(t.clone())));
            },
            None => {},
        }
        proof {
            let target = dmeta_to_jv(self@)->Obj_0;
            assert(view_json_fields(fields@) =~= target) by {
                crate::json::lemma_view_json_fields_len(fields@);
                assert forall|x: int| 0 <= x < fields@.len() implies view_json_fields(fields@)[x]
                    == target[x] by {
                    crate::json::lemma_view_json_fields_index(fields@, x);
                }
            }
        }
        Json::Obj(fields)
    }

    /// Discoverable metadata read from a metadata object: exactly
    /// [`jv_to_dmeta`], with the `available` default when `inclusion` is
    /// absent.
    #[verifier::rlimit(100)]
    #[verifier::spinoff_prover]
    pub fn from_json(j: &Json) -> (r: Result<DiscoverableMetadata, DecodeError>)
        ensures
            match r {
                Ok(m) => jv_to_dmeta(j@) == Ok::<DiscoverableMetadataV, DecodeError>(m@),
                Err(e) => jv_to_dmeta(j@) == Err::<DiscoverableMetadataV, DecodeError>(e),
            },
    {
        let fields = match j {
            Json::Obj(fields) => fields,
            _ => {
                return Err(DecodeError::SchemaViolation);
            },
        };
        let inclusion = match obj_find(fields, &String::from_str("inclusion")) {
            None => Include::Available,
            Some(idx) => match &fields[idx].1 {
                Json::Null => Include::Available,
                other => match json_to_include(other) {
                    Some(v) => v,
                    None => {
                        return Err(DecodeError::SchemaViolation);
                    },
                },
            },
        };
        let selected_by_default = match obj_find(fields, &String::from_str("selected-by-default")) {
            None => false,
            Some(idx) => match &fields[idx].1 {
                Json::Null => false,
                Json::Bool(b) => *b,
                _ => {
                    return Err(DecodeError::SchemaViolation);
                },
            },
        };
        let empty_a: Vec<String> = Vec::new();
        let empty_b: Vec<String> = Vec::new();
        proof {
            assert(empty_a.deep_view() =~= Seq::<Seq<char>>::empty());
            assert(empty_b.deep_view() =~= Seq::<Seq<char>>::empty());
        }
        let valid_replication_keys = match obj_find(
            fields,
            &String::from_str("valid-replication-keys"),
        ) {
            None => empty_a,
            Some(idx) => match &fields[idx].1 {
                Json::Null => {
                    let e: Vec<String> = Vec::new();
                    proof {
                        assert(e.deep_view() =~= Seq::<Seq<char>>::empty());
                    }
                    e
                },
                other => match json_to_strs(other) {
                    Some(v) => v,
                    None => {
                        return Err(DecodeError::SchemaViolation);
                    },
                },
            },
        };
        let forced_replication_method = match obj_find(
            fields,
            &String::from_str("forced-replication-method"),
        ) {
            None => None,
            Some(idx) => match &fields[idx].1 {
                Json::Null => None,
                other => match json_to_method(other) {
                    Some(v) => Some(v),
                    None => {
                        return Err(DecodeError::SchemaViolation);
                    },
                },
            },
        };
        let table_key_properties = match obj_find(
            fields,
            &String::from_str("table-key-properties"),
        ) {
            None => empty_b,
            Some(idx) => match &fields[idx].1 {
                Json::Null => {
                    let e: Vec<String> = Vec::new();
                    proof {
                        assert(e.deep_view() =~= Seq::<Seq<char>>::empty());
                    }
                    e
                },
                other => match json_to_strs(other) {
                    Some(v) => v,
                    None => {
                        return Err(DecodeError::SchemaViolation);
                    },
                },
            },
        };
        let schema_name = match obj_find(fields, &String::from_str("schema-name")) {
            None => None,
            Some(idx) => match &fields[idx].1 {
                Json::Null => None,
                Json::Str(t) => Some(t.clone()),
                _ => {
                    return Err(DecodeError::SchemaViolation);
                },
            },
        };
        let is_view = match obj_find(fields, &String::from_str("is-view")) {
            None => None,
            Some(idx) => match &fields[idx].1 {
                Json::Null => None,
                Json::Bool(b) => Some(*b),
                _ => {
                    return Err(DecodeError::SchemaViolation);
                },
            },
        };
        let row_count = match obj_find(fields, &String::from_str("row-count")) {
            None => None,
            Some(idx) => match &fields[idx].1 {
                Json::Null => None,
                Json::Int(n) => {
                    if *n >= 0 {
                        Some(*n as u64)
                    } else {
                        return Err(DecodeError::SchemaViolation);
                    }
                },
                Json::Num(t) => match dec_u64_of(t) {
                    Some(v) => Some(v),
                    None => {
                        return Err(DecodeError::SchemaViolation);
                    },
                },
                _ => {
                    return Err(DecodeError::SchemaViolation);
                },
            },
        };
        let database_name = match obj_find(fields, &String::from_str("database-name")) {
            None => None,
            Some(idx) => match &fields[idx].1 {
                Json::Null => None,
                Json::Str(t) => Some(t.clone()),
                _ => {
                    return Err(DecodeError::SchemaViolation);
                },
            },
        };
        let sql_database = match obj_find(fields, &String::from_str("sql-datatype")) {
            None => None,
            Some(idx) => match &fields[idx].1 {
                Json::Null => None,
                Json::Str(t) => Some(t.clone()),
                _ => {
                    return Err(DecodeError::SchemaViolation);
                },
            },
        };
        Ok(
            DiscoverableMetadata {
                inclusion,
                selected_by_default,
                valid_replication_keys,
                forced_replication_method,
                table_key_properties,
                schema_name,
                is_view,
                row_count,
                database_name,
                sql_database,
            },
        )
    }
}

/// One metadata entry of a stream: an open map of metadata keys, and the
/// breadcrumb saying whether it describes the stream (empty) or one of its
/// properties (`["properties", name]`).
pub struct Metadata {
    pub metadata: Json,
    pub breadcrumb: Vec<String>,
}

/// The mathematical shape of a [`Metadata`].
pub struct MetadataV {
    pub metadata: JsonV,
    pub breadcrumb: Seq<Seq<char>>,
}

impl View for Metadata {
    type V = MetadataV;

    open spec fn view(&self) -> MetadataV {
        MetadataV { metadata: self.metadata@, breadcrumb: self.breadcrumb.deep_view() }
    }
}

impl DeepView for Metadata {
    type V = MetadataV;

    open spec fn deep_view(&self) -> MetadataV {
        self.view()
    }
}

/// One discoverable data source.
pub struct Stream {
    /// The name as it is handed to the target.
    pub stream: String,
    /// The source-facing unique identifier; it may differ from `stream`
    /// when several source streams share a display name.
    pub tap_stream_id: String,
    pub schema: Json,
    pub table_name: Option<String>,
    pub metadata: Option<Vec<Metadata>>,
}

/// The mathematical shape of a [`Stream`].
pub struct StreamV {
    pub stream: Seq<char>,
    pub tap_stream_id: Seq<char>,
    pub schema: JsonV,
    pub table_name: Option<Seq<char>>,
    pub metadata: Option<Seq<MetadataV>>,
}

impl View for Stream {
    type V = StreamV;

    open spec fn view(&self) -> StreamV {
        StreamV {
            stream: self.stream@,
            tap_stream_id: self.tap_stream_id@,
            schema: self.schema@,
            table_name: match &self.table_name {
                Some(t) => Some(t@),
                None => None,
            },
            metadata: match &self.metadata {
                Some(v) => Some(v.deep_view()),
                None => None,
            },
        }
    }
}

impl DeepView for Stream {
    type V = StreamV;

    open spec fn deep_view(&self) -> StreamV {
        self.view()
    }
}

/// The whole catalog document.
pub struct Catalog {
    pub streams: Vec<Stream>,
}

/// The mathematical shape of a [`Catalog`].
pub struct CatalogV {
    pub streams: Seq<StreamV>,
}

impl View for Catalog {
    type V = CatalogV;

    open spec fn view(&self) -> CatalogV {
        CatalogV { streams: self.streams.deep_view() }
    }
}

/// The wire object of one metadata entry.
pub open spec fn meta_to_jv(m: MetadataV) -> JsonV {
    JsonV::Obj(seq![("metadata"@, m.metadata), ("breadcrumb"@, strs_to_jv(m.breadcrumb))])
}

/// The wire object of one stream: required fields in declaration order,
/// then the set optional fields, absent ones omitted.
pub open spec fn stream_to_jv(m: StreamV) -> JsonV {
    JsonV::Obj(
        seq![
            ("stream"@, JsonV::Str(m.stream)),
            ("tap_stream_id"@, JsonV::Str(m.tap_stream_id)),
            ("schema"@, m.schema),
        ] + (match m.table_name {
            Some(t) => seq![("table_name"@, JsonV::Str(t))],
            None => Seq::empty(),
        }) + (match m.metadata {
            Some(v) => seq![("metadata"@, JsonV::Arr(v.map_values(|e: MetadataV| meta_to_jv(e))))],
            None => Seq::empty(),
        }),
    )
}

/// The wire object of the whole catalog.
pub open spec fn catalog_to_jv(m: CatalogV) -> JsonV {
    JsonV::Obj(
        seq![("streams"@, JsonV::Arr(m.streams.map_values(|e: StreamV| stream_to_jv(e))))],
    )
}

/// One metadata entry read from its wire object: both members required,
/// a breadcrumb that is not an array of strings is a schema violation.
pub open spec fn jv_to_meta(j: JsonV) -> Result<MetadataV, DecodeError> {
    match j {
        JsonV::Obj(fields) => match obj_get_from(fields, "metadata"@, 0) {
            None => Err(DecodeError::MissingRequiredField),
            Some(metadata) => match obj_get_from(fields, "breadcrumb"@, 0) {
                None => Err(DecodeError::MissingRequiredField),
                Some(bv) => match jv_to_strs(bv) {
                    None => Err(DecodeError::SchemaViolation),
                    Some(breadcrumb) => Ok(MetadataV { metadata, breadcrumb }),
                },
            },
        },
        _ => Err(DecodeError::SchemaViolation),
    }
}

/// The metadata entries of a wire array from index `i` on, if every
/// element reads back.
pub open spec fn jv_to_metas_from(items: Seq<JsonV>, i: int) -> Result<Seq<MetadataV>, DecodeError>
    decreases items.len() - i,
{
    if !(0 <= i && i < items.len()) {
        Ok(Seq::empty())
    } else {
        match jv_to_meta(items[i]) {
            Err(e) => Err(e),
            Ok(m) => match jv_to_metas_from(items, i + 1) {
                Err(e) => Err(e),
                Ok(rest) => Ok(seq![m] + rest),
            },
        }
    }
}

/// One stream read from its wire object.
pub open spec fn jv_to_stream(j: JsonV) -> Result<StreamV, DecodeError> {
    match j {
        JsonV::Obj(fields) => match obj_get_from(fields, "stream"@, 0) {
            None => Err(DecodeError::MissingRequiredField),
            Some(JsonV::Str(stream)) => match obj_get_from(fields, "tap_stream_id"@, 0) {
                None => Err(DecodeError::MissingRequiredField),
                Some(JsonV::Str(tap_stream_id)) => match obj_get_from(fields, "schema"@, 0) {
                    None => Err(DecodeError::MissingRequiredField),
                    Some(schema) => {
                        let tn = match opt_member(fields, "table_name"@) {
                            None => Ok(None),
                            Some(JsonV::Str(t)) => Ok(Some(t)),
                            Some(_) => Err(DecodeError::SchemaViolation),
                        };
                        let md = match opt_member(fields, "metadata"@) {
                            None => Ok(None),
                            Some(JsonV::Arr(items)) => match jv_to_metas_from(items, 0) {
                                Ok(v) => Ok(Some(v)),
                                Err(e) => Err(e),
                            },
                            Some(_) => Err(DecodeError::SchemaViolation),
                        };
                        match (tn, md) {
                            (Ok(table_name), Ok(metadata)) => Ok(
                                StreamV { stream, tap_stream_id, schema, table_name, metadata },
                            ),
                            (Err(e), _) => Err(e),
                            (_, Err(e)) => Err(e),
                        }
                    },
                },
                Some(_) => Err(DecodeError::SchemaViolation),
            },
            Some(_) => Err(DecodeError::SchemaViolation),
        },
        _ => Err(DecodeError::SchemaViolation),
    }
}

/// The streams of a wire array from index `i` on, if every element reads
/// back.
pub open spec fn jv_to_streams_from(items: Seq<JsonV>, i: int) -> Result<Seq<StreamV>, DecodeError>
    decreases items.len() - i,
{
    if !(0 <= i && i < items.len()) {
        Ok(Seq::empty())
    } else {
        match jv_to_stream(items[i]) {
            Err(e) => Err(e),
            Ok(m) => match jv_to_streams_from(items, i + 1) {
                Err(e) => Err(e),
                Ok(rest) => Ok(seq![m] + rest),
            },
        }
    }
}

/// The catalog document read from its wire object: the `streams` array is
/// required; anything but an array of stream objects is a schema violation.
pub open spec fn jv_to_catalog(j: JsonV) -> Result<CatalogV, DecodeError> {
    match j {
        JsonV::Obj(fields) => match obj_get_from(fields, "streams"@, 0) {
            None => Err(DecodeError::MissingRequiredField),
            Some(JsonV::Arr(items)) => match jv_to_streams_from(items, 0) {
                Ok(streams) => Ok(CatalogV { streams }),
                Err(e) => Err(e),
            },
            Some(_) => Err(DecodeError::SchemaViolation),
        },
        _ => Err(DecodeError::SchemaViolation),
    }
}

/// The exact wire text of a catalog document.
pub open spec fn spec_encode_catalog(m: CatalogV) -> Seq<char> {
    print_jv(catalog_to_jv(m))
}

/// What a piece of wire text decodes to as a catalog.
pub open spec fn spec_decode_catalog(s: Seq<char>) -> Result<CatalogV, DecodeError> {
    match sp_json(s) {
        None => Err(DecodeError::MalformedJson),
        Some(j) => jv_to_catalog(j),
    }
}

impl Metadata {
    /// The wire object of this entry: exactly [`meta_to_jv`].
    pub fn to_json(&self) -> (r: Json)
        ensures
            r@ == meta_to_jv(self@),
    {
        let mut fields: Vec<(String, Json)> = Vec::new();
        fields.push((String::from_str("metadata"), clone_json(&self.metadata)));
        fields.push((String::from_str("breadcrumb"), strs_to_json(&self.breadcrumb)));
        proof {
            let target = meta_to_jv(self@)->Obj_0;
            assert(view_json_fields(fields@) =~= target) by {
                crate::json::lemma_view_json_fields_len(fields@);
                assert forall|x: int| 0 <= x < fields@.len() implies view_json_fields(fields@)[x]
                    == target[x] by {
                    crate::json::lemma_view_json_fields_index(fields@, x);
                }
            }
        }
        Json::Obj(fields)
    }

    /// One entry read from its wire object: exactly [`jv_to_meta`].
    pub fn from_json(j: &Json) -> (r: Result<Metadata, DecodeError>)
        ensures
            match r {
                Ok(m) => jv_to_meta(j@) == Ok::<MetadataV, DecodeError>(m@),
                Err(e) => jv_to_meta(j@) == Err::<MetadataV, DecodeError>(e),
            },
    {
        let fields = match j {
            Json::Obj(fields) => fields,
            _ => {
                return Err(DecodeError::SchemaViolation);
            },
        };
        let metadata = match obj_find(fields, &String::from_str("metadata")) {
            None => {
                return Err(DecodeError::MissingRequiredField);
            },
            Some(idx) => clone_json(&fields[idx].1),
        };
        let breadcrumb = match obj_find(fields, &String::from_str("breadcrumb")) {
            None => {
                return Err(DecodeError::MissingRequiredField);
            },
            Some(idx) => match json_to_strs(&fields[idx].1) {
                Some(v) => v,
                None => {
                    return Err(DecodeError::SchemaViolation);
                },
            },
        };
        Ok(Metadata { metadata, breadcrumb })
    }
}

/// A metadata entry the encoder accepts: its open map well formed.
pub open spec fn wf_meta(m: MetadataV) -> bool {
    wf_jv(m.metadata)
}

/// A stream the encoder accepts: its schema and every metadata entry well
/// formed.
pub open spec fn wf_stream(s: StreamV) -> bool {
    &&& wf_jv(s.schema)
    &&& match s.metadata {
        Some(v) => forall|k: int| 0 <= k < v.len() ==> wf_meta(#[trigger] v[k]),
        None => true,
    }
}

/// A catalog the encoder accepts: every stream well formed.
pub open spec fn wf_catalog(c: CatalogV) -> bool {
    forall|k: int| 0 <= k < c.streams.len() ==> wf_stream(#[trigger] c.streams[k])
}

/// The wire array of a list of metadata entries.
fn metas_to_json(v: &Vec<Metadata>) -> (r: Json)
    ensures
        r@ == JsonV::Arr(v.deep_view().map_values(|e: MetadataV| meta_to_jv(e))),
{
    let mut items: Vec<Json> = Vec::new();
    let mut k: usize = 0;
    while k < v.len()
        invariant
            k <= v@.len(),
            items@.len() == k,
            forall|x: int| 0 <= x < k ==> #[trigger] items@[x]@ == meta_to_jv(v@[x]@),
        decreases v@.len() - k,
    {
        items.push(v[k].to_json());
        k = k + 1;
    }
    proof {
        let target = v.deep_view().map_values(|e: MetadataV| meta_to_jv(e));
        assert(view_json_seq(items@) =~= target) by {
            crate::json::lemma_view_json_seq_len(items@);
            assert forall|x: int| 0 <= x < items@.len() implies view_json_seq(items@)[x]
                == target[x] by {
                crate::json::lemma_view_json_seq_index(items@, x);
            }
        }
    }
    Json::Arr(items)
}

/// The metadata entries of a wire array from index `i` on, in executable
/// form.
fn metas_from_json(items: &Vec<Json>, i: usize) -> (r: Result<Vec<Metadata>, DecodeError>)
    ensures
        match r {
            Ok(v) => jv_to_metas_from(view_json_seq(items@), i as int) == Ok::<
                Seq<MetadataV>,
                DecodeError,
            >(v.deep_view()),
            Err(e) => jv_to_metas_from(view_json_seq(items@), i as int) == Err::<
                Seq<MetadataV>,
                DecodeError,
            >(e),
        },
    decreases items@.len() - i,
{
    broadcast use crate::json::lemma_view_json_seq_index, crate::json::lemma_view_json_seq_len;

    if i >= items.len() {
        let out: Vec<Metadata> = Vec::new();
        proof {
            assert(out.deep_view() =~= Seq::<MetadataV>::empty());
        }
        return Ok(out);
    }
    proof {
        crate::json::lemma_view_json_seq_index(items@, i as int);
    }
    let m = match Metadata::from_json(&items[i]) {
        Ok(m) => m,
        Err(e) => {
            return Err(e);
        },
    };
    let rest = match metas_from_json(items, i + 1) {
        Ok(v) => v,
        Err(e) => {
            return Err(e);
        },
    };
    let ghost rv = rest.deep_view();
    let mut out: Vec<Metadata> = Vec::new();
    let ghost mv = m@;
    out.push(m);
    let mut rest2 = rest;
    out.append(&mut rest2);
    proof {
        assert(out.deep_view() =~= seq![mv] + rv);
    }
    Ok(out)
}

impl Stream {
    /// The wire object of this stream: exactly [`stream_to_jv`], required
    /// fields first, unset optional fields wholly absent.
    pub fn to_json(&self) -> (r: Json)
        ensures
            r@ == stream_to_jv(self@),
    {
        let mut fields: Vec<(String, Json)> = Vec::new();
        fields.push((String::from_str("stream"), Json::Str(self.stream.clone())));
        fields.push((String::from_str("tap_stream_id"), Json::Str(self.tap_stream_id.clone())));
        fields.push((String::from_str("schema"), clone_json(&self.schema)));
        match &self.table_name {
            Some(t) => {
                fields.push((String::from_str("table_name"), Json::Str(t.clone())));
            },
            None => {},
        }
        match &self.metadata {
            Some(v) => {
                fields.push((String::from_str("metadata"), metas_to_json(v)));
            },
            None => {},
        }
        proof {
            let target = stream_to_jv(self@)->Obj_0;
            assert(view_json_fields(fields@) =~= target) by {
                crate::json::lemma_view_json_fields_len(fields@);
                assert forall|x: int| 0 <= x < fields@.len() implies view_json_fields(fields@)[x]
                    == target[x] by {
                    crate::json::lemma_view_json_fields_index(fields@, x);
                }
            }
        }
        Json::Obj(fields)
    }

    /// One stream read from its wire object: exactly [`jv_to_stream`].
    pub fn from_json(j: &Json) -> (r: Result<Stream, DecodeError>)
        ensures
            match r {
                Ok(s) => jv_to_stream(j@) == Ok::<StreamV, DecodeError>(s@),
                Err(e) => jv_to_stream(j@) == Err::<StreamV, DecodeError>(e),
            },
    {
        let fields = match j {
            Json::Obj(fields) => fields,
            _ => {
                return Err(DecodeError::SchemaViolation);
            },
        };
        let stream = match obj_find(fields, &String::from_str("stream")) {
            None => {
                return Err(DecodeError::MissingRequiredField);
            },
            Some(idx) => match &fields[idx].1 {
                Json::Str(t) => t.clone(),
                _ => {
                    return Err(DecodeError::SchemaViolation);
                },
            },
        };
        let tap_stream_id = match obj_find(fields, &String::from_str("tap_stream_id")) {
            None => {
                return Err(DecodeError::MissingRequiredField);
            },
            Some(idx) => match &fields[idx].1 {
                Json::Str(t) => t.clone(),
                _ => {
                    return Err(DecodeError::SchemaViolation);
                },
            },
        };
        let schema = match obj_find(fields, &String::from_str("schema")) {
            None => {
                return Err(DecodeError::MissingRequiredField);
            },
            Some(idx) => clone_json(&fields[idx].1),
        };
        let table_name = match obj_find(fields, &String::from_str("table_name")) {
            None => None,
            Some(idx) => match &fields[idx].1 {
                Json::Null => None,
                Json::Str(t) => Some(t.clone()),
                _ => {
                    return Err(DecodeError::SchemaViolation);
                },
            },
        };
        let metadata = match obj_find(fields, &String::from_str("metadata")) {
            None => None,
            Some(idx) => match &fields[idx].1 {
                Json::Null => None,
                Json::Arr(items) => match metas_from_json(items, 0) {
                    Ok(v) => Some(v),
                    Err(e) => {
                        return Err(e);
                    },
                },
                _ => {
                    return Err(DecodeError::SchemaViolation);
                },
            },
        };
        Ok(Stream { stream, tap_stream_id, schema, table_name, metadata })
    }
}

/// The wire array of a list of streams.
fn streams_to_json(v: &Vec<Stream>) -> (r: Json)
    ensures
        r@ == JsonV::Arr(v.deep_view().map_values(|e: StreamV| stream_to_jv(e))),
{
    let mut items: Vec<Json> = Vec::new();
    let mut k: usize = 0;
    while k < v.len()
        invariant
            k <= v@.len(),
            items@.len() == k,
            forall|x: int| 0 <= x < k ==> #[trigger] items@[x]@ == stream_to_jv(v@[x]@),
        decreases v@.len() - k,
    {
        items.push(v[k].to_json());
        k = k + 1;
    }
    proof {
        let target = v.deep_view().map_values(|e: StreamV| stream_to_jv(e));
        assert(view_json_seq(items@) =~= target) by {
            crate::json::lemma_view_json_seq_len(items@);
            assert forall|x: int| 0 <= x < items@.len() implies view_json_seq(items@)[x]
                == target[x] by {
                crate::json::lemma_view_json_seq_index(items@, x);
            }
        }
    }
    Json::Arr(items)
}

/// The streams of a wire array from index `i` on, in executable form.
fn streams_from_json(items: &Vec<Json>, i: usize) -> (r: Result<Vec<Stream>, DecodeError>)
    ensures
        match r {
            Ok(v) => jv_to_streams_from(view_json_seq(items@), i as int) == Ok::<
                Seq<StreamV>,
                DecodeError,
            >(v.deep_view()),
            Err(e) => jv_to_streams_from(view_json_seq(items@), i as int) == Err::<
                Seq<StreamV>,
                DecodeError,
            >(e),
        },
    decreases items@.len() - i,
{
    broadcast use crate::json::lemma_view_json_seq_index, crate::json::lemma_view_json_seq_len;

    if i >= items.len() {
        let out: Vec<Stream> = Vec::new();
        proof {
            assert(out.deep_view() =~= Seq::<StreamV>::empty());
        }
        return Ok(out);
    }
    proof {
        crate::json::lemma_view_json_seq_index(items@, i as int);
    }
    let m = match Stream::from_json(&items[i]) {
        Ok(m) => m,
        Err(e) => {
            return Err(e);
        },
    };
    let rest = match streams_from_json(items, i + 1) {
        Ok(v) => v,
        Err(e) => {
            return Err(e);
        },
    };
    let ghost rv = rest.deep_view();
    let mut out: Vec<Stream> = Vec::new();
    let ghost mv = m@;
    out.push(m);
    let mut rest2 = rest;
    out.append(&mut rest2);
    proof {
        assert(out.deep_view() =~= seq![mv] + rv);
    }
    Ok(out)
}

impl Catalog {
    /// The wire object of the catalog: exactly [`catalog_to_jv`].
    pub fn to_json(&self) -> (r: Json)
        ensures
            r@ == catalog_to_jv(self@),
    {
        let mut fields: Vec<(String, Json)> = Vec::new();
        fields.push((String::from_str("streams"), streams_to_json(&self.streams)));
        proof {
            let target = catalog_to_jv(self@)->Obj_0;
            assert(view_json_fields(fields@) =~= target) by {
                crate::json::lemma_view_json_fields_len(fields@);
                assert forall|x: int| 0 <= x < fields@.len() implies view_json_fields(fields@)[x]
                    == target[x] by {
                    crate::json::lemma_view_json_fields_index(fields@, x);
                }
            }
        }
        Json::Obj(fields)
    }

    /// The wire text of the whole catalog document: exactly
    /// [`spec_encode_catalog`].
    pub fn encode(&self) -> (r: String)
        ensures
            r@ == spec_encode_catalog(self@),
    {
        let j = self.to_json();
        encode_json(&j)
    }

    /// The catalog read from its wire object: exactly [`jv_to_catalog`].
    pub fn from_json(j: &Json) -> (r: Result<Catalog, DecodeError>)
        ensures
            match r {
                Ok(c) => jv_to_catalog(j@) == Ok::<CatalogV, DecodeError>(c@),
                Err(e) => jv_to_catalog(j@) == Err::<CatalogV, DecodeError>(e),
            },
    {
        let fields = match j {
            Json::Obj(fields) => fields,
            _ => {
                return Err(DecodeError::SchemaViolation);
            },
        };
        match obj_find(fields, &String::from_str("streams")) {
            None => Err(DecodeError::MissingRequiredField),
            Some(idx) => match &fields[idx].1 {
                Json::Arr(items) => match streams_from_json(items, 0) {
                    Ok(streams) => Ok(Catalog { streams }),
                    Err(e) => Err(e),
                },
                _ => Err(DecodeError::SchemaViolation),
            },
        }
    }

    /// One catalog read from wire text: exactly [`spec_decode_catalog`].
    pub fn decode(s: &str) -> (r: Result<Catalog, DecodeError>)
        ensures
            match r {
                Ok(c) => spec_decode_catalog(s@) == Ok::<CatalogV, DecodeError>(c@),
                Err(e) => spec_decode_catalog(s@) == Err::<CatalogV, DecodeError>(e),
            },
    {
        match parse_json(s) {
            None => Err(DecodeError::MalformedJson),
            Some(j) => Catalog::from_json(&j),
        }
    }
}

/// Round trip for one metadata entry: its wire object is well formed and
/// reads back to exactly the entry.
pub proof fn lemma_meta_round_trip(m: MetadataV)
    requires
        wf_meta(m),
    ensures
        wf_jv(meta_to_jv(m)),
        jv_to_meta(meta_to_jv(m)) == Ok::<MetadataV, DecodeError>(m),
{
    reveal_strlit("metadata");
    reveal_strlit("breadcrumb");
    let fields = meta_to_jv(m)->Obj_0;
    assert(fields[0] == ("metadata"@, m.metadata));
    assert(fields[1] == ("breadcrumb"@, strs_to_jv(m.breadcrumb)));
    assert("metadata"@ != "breadcrumb"@) by {
        assert("metadata"@.len() == 8 && "breadcrumb"@.len() == 10);
    }
    crate::message::lemma_strs_to_jv_wf(m.breadcrumb);
    crate::json::lemma_wf_fields_from(fields, 0);
    crate::json::lemma_obj_get_at(fields, "metadata"@, 0, 0);
    crate::json::lemma_obj_get_at(fields, "breadcrumb"@, 1, 0);
    crate::message::lemma_strs_round_trip(m.breadcrumb);
}

/// Round trip for a list of metadata entries, from index `i` on.
pub proof fn lemma_metas_round_trip(v: Seq<MetadataV>, i: int)
    requires
        forall|k: int| 0 <= k < v.len() ==> wf_meta(#[trigger] v[k]),
        0 <= i <= v.len(),
    ensures
        jv_to_metas_from(v.map_values(|e: MetadataV| meta_to_jv(e)), i) == Ok::<
            Seq<MetadataV>,
            DecodeError,
        >(v.subrange(i, v.len() as int)),
    decreases v.len() - i,
{
    let w = v.map_values(|e: MetadataV| meta_to_jv(e));
    if i < v.len() {
        lemma_meta_round_trip(v[i]);
        lemma_metas_round_trip(v, i + 1);
        assert(seq![v[i]] + v.subrange(i + 1, v.len() as int) =~= v.subrange(i, v.len() as int));
    } else {
        assert(v.subrange(i, v.len() as int) =~= Seq::<MetadataV>::empty());
    }
}

/// Round trip for one stream: its wire object is well formed and reads
/// back to exactly the stream.
#[verifier::rlimit(100)]
#[verifier::spinoff_prover]
pub proof fn lemma_stream_round_trip(s: StreamV)
    requires
        wf_stream(s),
    ensures
        wf_jv(stream_to_jv(s)),
        jv_to_stream(stream_to_jv(s)) == Ok::<StreamV, DecodeError>(s),
{
    reveal_strlit("stream");
    reveal_strlit("tap_stream_id");
    reveal_strlit("schema");
    reveal_strlit("table_name");
    reveal_strlit("metadata");
    let fields = stream_to_jv(s)->Obj_0;
    assert("stream"@ != "schema"@) by {
        assert("stream"@[1] == 't');
        assert("schema"@[1] == 'c');
    }
    assert("stream"@ != "tap_stream_id"@ && "schema"@ != "tap_stream_id"@) by {
        assert("stream"@.len() == 6 && "schema"@.len() == 6 && "tap_stream_id"@.len() == 13);
    }
    assert("table_name"@ != "stream"@ && "table_name"@ != "tap_stream_id"@ && "table_name"@
        != "schema"@ && "table_name"@ != "metadata"@) by {
        assert("table_name"@.len() == 10 && "stream"@.len() == 6 && "tap_stream_id"@.len() == 13
            && "schema"@.len() == 6 && "metadata"@.len() == 8);
    }
    assert("metadata"@ != "stream"@ && "metadata"@ != "tap_stream_id"@ && "metadata"@
        != "schema"@) by {
        assert("metadata"@.len() == 8 && "stream"@.len() == 6 && "tap_stream_id"@.len() == 13
            && "schema"@.len() == 6);
    }
    assert(fields[0] == ("stream"@, JsonV::Str(s.stream)));
    assert(fields[1] == ("tap_stream_id"@, JsonV::Str(s.tap_stream_id)));
    assert(fields[2] == ("schema"@, s.schema));
    match s.metadata {
        Some(v) => {
            let w = v.map_values(|e: MetadataV| meta_to_jv(e));
            assert forall|x: int| 0 <= x < w.len() implies wf_jv(#[trigger] w[x]) by {
                lemma_meta_round_trip(v[x]);
            }
            crate::json::lemma_wf_items_from(w, 0);
            lemma_metas_round_trip(v, 0);
            assert(v.subrange(0, v.len() as int) =~= v);
        },
        None => {},
    }
    crate::json::lemma_wf_fields_from(fields, 0);
    crate::json::lemma_obj_get_at(fields, "stream"@, 0, 0);
    crate::json::lemma_obj_get_at(fields, "tap_stream_id"@, 1, 0);
    crate::json::lemma_obj_get_at(fields, "schema"@, 2, 0);
    match s.table_name {
        Some(t) => {
            assert(fields[3] == ("table_name"@, JsonV::Str(t)));
            crate::json::lemma_obj_get_at(fields, "table_name"@, 3, 0);
            match s.metadata {
                Some(v) => {
                    assert(fields[4] == ("metadata"@, JsonV::Arr(
                        v.map_values(|e: MetadataV| meta_to_jv(e)),
                    )));
                    crate::json::lemma_obj_get_at(fields, "metadata"@, 4, 0);
                },
                None => {
                    assert(fields.len() == 4);
                    crate::json::lemma_obj_get_none(fields, "metadata"@, 0);
                },
            }
        },
        None => {
            crate::json::lemma_obj_get_none(fields, "table_name"@, 0);
            match s.metadata {
                Some(v) => {
                    assert(fields[3] == ("metadata"@, JsonV::Arr(
                        v.map_values(|e: MetadataV| meta_to_jv(e)),
                    )));
                    crate::json::lemma_obj_get_at(fields, "metadata"@, 3, 0);
                },
                None => {
                    assert(fields.len() == 3);
                    crate::json::lemma_obj_get_none(fields, "metadata"@, 0);
                },
            }
        },
    }
}

/// Round trip for a list of streams, from index `i` on.
pub proof fn lemma_streams_round_trip(v: Seq<StreamV>, i: int)
    requires
        forall|k: int| 0 <= k < v.len() ==> wf_stream(#[trigger] v[k]),
        0 <= i <= v.len(),
    ensures
        jv_to_streams_from(v.map_values(|e: StreamV| stream_to_jv(e)), i) == Ok::<
            Seq<StreamV>,
            DecodeError,
        >(v.subrange(i, v.len() as int)),
    decreases v.len() - i,
{
    if i < v.len() {
        lemma_stream_round_trip(v[i]);
        lemma_streams_round_trip(v, i + 1);
        assert(seq![v[i]] + v.subrange(i + 1, v.len() as int) =~= v.subrange(i, v.len() as int));
    } else {
        assert(v.subrange(i, v.len() as int) =~= Seq::<StreamV>::empty());
    }
}

/// Round trip: decoding the encoded text of any well-formed catalog gives
/// back exactly that catalog.
pub proof fn lemma_catalog_round_trip(c: CatalogV)
    requires
        wf_catalog(c),
    ensures
        spec_decode_catalog(spec_encode_catalog(c)) == Ok::<CatalogV, DecodeError>(c),
{
    reveal_strlit("streams");
    let j = catalog_to_jv(c);
    let fields = j->Obj_0;
    let w = c.streams.map_values(|e: StreamV| stream_to_jv(e));
    assert(fields[0] == ("streams"@, JsonV::Arr(w)));
    assert forall|x: int| 0 <= x < w.len() implies wf_jv(#[trigger] w[x]) by {
        lemma_stream_round_trip(c.streams[x]);
    }
    assert(wf_jv(j)) by {
        crate::json::lemma_wf_items_from(w, 0);
        crate::json::lemma_wf_fields_from(fields, 0);
    }
    crate::json::lemma_sp_json_print(j);
    assert(jv_to_catalog(j) == Ok::<CatalogV, DecodeError>(c)) by {
        crate::json::lemma_obj_get_at(fields, "streams"@, 0, 0);
        lemma_streams_round_trip(c.streams, 0);
        assert(c.streams.subrange(0, c.streams.len() as int) =~= c.streams);
        assert(CatalogV { streams: c.streams } == c);
    }
}

} // verus!
