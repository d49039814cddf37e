//! JSON-RPC message handling.
//!
//! The response dialect depends on the request:
//!
//! * an explicit `jsonrpc` version field selects a versioned envelope,
//!   `{"jsonrpc": "2.0", "result": .., "id": ..}` for version 2;
//! * without it, an id of `0` (or a missing, empty or false one) selects the
//!   bare array `[result]`;
//! * any other id selects `{"result": .., "error": null, "id": ..}`.
//!
//! A fault that is found before the dialect is known is a bare object,
//! `{"faultCode": .., "faultString": .., "fault": "Fault"}`: so are the faults
//! of a body that is no object, of an unreadable version field, of a missing
//! method and of params that are neither an array nor an object.
//!
//! A request is handled in two steps: [`process`] answers it, or yields the
//! grid request that is to be produced; [`Pending::finish`] then wraps the
//! produced response.

use vstd::prelude::*;
use vstd::slice::*;
use vstd::string::*;

use crate::ieee::Real;
use crate::json;
use crate::json::{Json, JsonModel};
use crate::number;
use crate::request::Request;
use crate::service;
use crate::service::{GridKind, GridRequest, Service};
use crate::text;

verus! {

/// Code of a failure inside a method.
pub const FAILURE: i64 = 8002;

/// Code of a request that is not valid.
pub const INVALID_REQUEST: i64 = -32600;

/// Code of an unknown method.
pub const METHOD_NOT_FOUND: i64 = -32601;

/// Code of parameters that are not valid.
pub const INVALID_PARAMS: i64 = -32602;

/// Characters kept of a params summary.
pub const MAX_PARAMS_SUMMARY: usize = 160;

/// How a dispatched request ended.
#[derive(Debug, PartialEq, Eq)]
pub enum Outcome {
    /// The handler returned a result.
    Success,
    /// A data request was refused.
    Blocked(String),
    /// A fault was returned.
    Fault { code: i64, message: String },
}

/// What an [`Outcome`] holds.
pub enum OutcomeModel {
    Success,
    Blocked(Seq<char>),
    Fault(int, Seq<char>),
}

impl View for Outcome {
    type V = OutcomeModel;

    open spec fn view(&self) -> OutcomeModel {
        match self {
            Outcome::Success => OutcomeModel::Success,
            Outcome::Blocked(reason) => OutcomeModel::Blocked(reason@),
            Outcome::Fault { code, message } => OutcomeModel::Fault(*code as int, message@),
        }
    }
}

impl Outcome {
    /// A short label for access log lines.
    pub fn label(&self) -> (r: &'static str)
        ensures
            r@ == (match self@ {
                OutcomeModel::Success => "ok"@,
                OutcomeModel::Blocked(_) => "BLOCKED"@,
                OutcomeModel::Fault(_, _) => "fault"@,
            }),
    {
        match self {
            Outcome::Success => "ok",
            Outcome::Blocked(_) => "BLOCKED",
            Outcome::Fault { code: _, message: _ } => "fault",
        }
    }
}

/// The method, id, params and outcome of a request, for the access log.
#[derive(Debug, PartialEq, Eq)]
pub struct RequestMeta {
    /// The requested method, when the request carried a usable one.
    pub method: Option<String>,
    /// The request id (`null` when absent).
    pub id: String,
    /// A bounded summary of the `params` value.
    pub params: String,
    /// How the request ended.
    pub outcome: Option<Outcome>,
}

/// What a [`RequestMeta`] holds.
pub struct MetaModel {
    pub method: Option<Seq<char>>,
    pub id: Seq<char>,
    pub params: Seq<char>,
    pub outcome: Option<OutcomeModel>,
}

impl View for RequestMeta {
    type V = MetaModel;

    open spec fn view(&self) -> MetaModel {
        MetaModel {
            method: text::opt_text(self.method),
            id: self.id@,
            params: self.params@,
            outcome: (match self.outcome {
                Some(o) => Some(o@),
                None => None,
            }),
        }
    }
}

/// Metadata of a request that carried nothing usable.
pub open spec fn blank_meta() -> MetaModel {
    MetaModel { method: None, id: Seq::empty(), params: Seq::empty(), outcome: None }
}

impl Default for RequestMeta {
    /// Metadata of a request that carried nothing usable.
    fn default() -> (r: RequestMeta)
        ensures
            r@ == blank_meta(),
    {
        RequestMeta { method: None, id: String::new(), params: String::new(), outcome: None }
    }
}

/// What an access line says of how a request ended.
pub open spec fn outcome_mark(outcome: Option<OutcomeModel>) -> Seq<char> {
    match outcome {
        Some(OutcomeModel::Blocked(reason)) => " BLOCKED ("@ + reason + ")"@,
        Some(OutcomeModel::Fault(code, message)) => " fault "@ + number::signed_decimal(code) + " "@
            + text::debug_text(message),
        _ => ""@,
    }
}

/// A text, or a hyphen when there is none.
pub open spec fn or_hyphen(o: Option<Seq<char>>) -> Seq<char> {
    match o {
        Some(s) => s,
        None => "-"@,
    }
}

/// The access line of a request that took `elapsed` milliseconds.
pub open spec fn access_text(meta: MetaModel, request: Request, elapsed: Seq<char>) -> Seq<char> {
    or_hyphen(meta.method) + "("@ + meta.params + ")"@ + outcome_mark(meta.outcome) + " id="@ + meta.id + " client="@
        + or_hyphen(request.client()) + " ua="@ + or_hyphen(text::opt_text(request.user_agent)) + " "@ + elapsed + "ms"@
}

/// Append a text, or a hyphen when there is none.
fn push_or_hyphen(out: &mut String, o: &Option<String>)
    ensures
        final(out)@ == old(out)@ + or_hyphen(text::opt_text(*o)),
{
    match o {
        Some(s) => out.append(s.as_str()),
        None => out.append("-"),
    }
}

impl RequestMeta {
    /// Whether the access line of the request is a warning: it is when the
    /// request was refused.
    pub fn is_warning(&self) -> (r: bool)
        ensures
            r == (self@.outcome matches Some(o) && o is Blocked),
    {
        match &self.outcome {
            Some(Outcome::Blocked(_)) => true,
            _ => false,
        }
    }

    /// The access line of the request, given the handler duration in
    /// milliseconds.
    pub fn access_line(&self, request: &Request, elapsed: &str) -> (r: String)
        ensures
            r@ == access_text(self@, *request, elapsed@),
    {
        let mut out = String::new();
        push_or_hyphen(&mut out, &self.method);
        out.append("(");
        out.append(self.params.as_str());
        out.append(")");
        match &self.outcome {
            Some(Outcome::Blocked(reason)) => {
                out.append(" BLOCKED (");
                out.append(reason.as_str());
                out.append(")");
            },
            Some(Outcome::Fault { code, message }) => {
                out.append(" fault ");
                number::push_signed(&mut out, *code);
                out.append(" ");
                out.append(text::quoted(message.as_str()).as_str());
            },
            _ => {
                out.append("");
            },
        }
        out.append(" id=");
        out.append(self.id.as_str());
        out.append(" client=");
        push_or_hyphen(&mut out, &request.request_client());
        out.append(" ua=");
        push_or_hyphen(&mut out, &request.user_agent);
        out.append(" ");
        out.append(elapsed);
        out.append("ms");
        assert(out@ =~= access_text(self@, *request, elapsed@));
        out
    }
}

/// The summary of a text: its first characters, and an ellipsis when there are
/// more.
pub open spec fn bounded(s: Seq<char>) -> Seq<char> {
    if s.len() <= MAX_PARAMS_SUMMARY {
        s
    } else {
        s.take(MAX_PARAMS_SUMMARY as int).push('\u{2026}')
    }
}

/// The summary of a `params` value with the given JSON text.
pub open spec fn params_summary(params: JsonModel, json_text: Seq<char>) -> Seq<char> {
    bounded(
        match params {
            JsonModel::Null => "null"@,
            _ => json_text,
        },
    )
}

/// A bounded summary of a `params` value, given its JSON text.
pub fn summarize_params(params: &Json, json_text: &str) -> (r: String)
    ensures
        r@ == params_summary(params@, json_text@),
{
    let chars = match params {
        Json::Null => text::chars_of("null"),
        _ => text::chars_of(json_text),
    };
    if chars.len() <= MAX_PARAMS_SUMMARY {
        text::text_of(chars.as_slice())
    } else {
        let head = slice_subrange(chars.as_slice(), 0, MAX_PARAMS_SUMMARY);
        let mut out = text::text_of(head);
        out.push('\u{2026}');
        assert(head@ =~= chars@.take(MAX_PARAMS_SUMMARY as int));
        out
    }
}

/// The rendering of an id with the given JSON text.
pub open spec fn id_text(id: JsonModel, json_text: Seq<char>) -> Seq<char> {
    match id {
        JsonModel::Null => "null"@,
        JsonModel::Text(s) => s,
        _ => json_text,
    }
}

/// Render a request id, given its JSON text.
pub fn render_id(id: &Json, json_text: &str) -> (r: String)
    ensures
        r@ == id_text(id@, json_text@),
{
    match id {
        Json::Null => String::from_str("null"),
        Json::Text(s) => s.clone(),
        _ => String::from_str(json_text),
    }
}

/// The outcome of a dispatch: the serialized response and the metadata.
#[derive(Debug)]
pub struct DispatchResult {
    pub response: Option<String>,
    pub meta: RequestMeta,
}

impl DispatchResult {
    /// The serialized response body.
    pub fn expect_response(self) -> (r: String)
        requires
            self.response is Some,
        ensures
            r@ == self.response->0@,
    {
        match self.response {
            Some(s) => s,
            None => String::new(),
        }
    }
}

/// A serialized response together with its metadata.
pub fn dispatch_result(response: String, meta: RequestMeta) -> (r: DispatchResult)
    ensures
        r.response matches Some(s) && s@ == response@,
        r.meta == meta,
{
    DispatchResult { response: Some(response), meta }
}

// ---------------------------------------------------------------------
// envelopes
// ---------------------------------------------------------------------

/// The response dialect of a request.
#[derive(Debug, Clone, Copy, PartialEq, Eq, Structural)]
pub enum Envelope {
    /// A bare array of one element.
    Pre1,
    /// Version 1.
    V1,
    /// Version 2.
    V2,
}

/// A result in an envelope.
pub open spec fn success(envelope: Envelope, id: JsonModel, result: JsonModel) -> JsonModel {
    match envelope {
        Envelope::Pre1 => JsonModel::Array(seq![result]),
        Envelope::V1 => JsonModel::Object(
            seq![("result"@, result), ("error"@, JsonModel::Null), ("id"@, id)],
        ),
        Envelope::V2 => JsonModel::Object(
            seq![("jsonrpc"@, JsonModel::Text("2.0"@)), ("result"@, result), ("id"@, id)],
        ),
    }
}

/// The fault object of the first two dialects.
pub open spec fn fault_object(code: int, message: Seq<char>) -> JsonModel {
    JsonModel::Object(
        seq![
            ("fault"@, JsonModel::Text("Fault"@)),
            ("faultCode"@, JsonModel::Int(code)),
            ("faultString"@, JsonModel::Text(message)),
        ],
    )
}

/// A fault in an envelope.
pub open spec fn fault(envelope: Envelope, id: JsonModel, code: int, message: Seq<char>) -> JsonModel {
    match envelope {
        Envelope::Pre1 => fault_object(code, message),
        Envelope::V1 => JsonModel::Object(
            seq![("result"@, JsonModel::Null), ("error"@, fault_object(code, message)), ("id"@, id)],
        ),
        Envelope::V2 => JsonModel::Object(
            seq![
                ("jsonrpc"@, JsonModel::Text("2.0"@)),
                (
                    "error"@,
                    JsonModel::Object(
                        seq![
                            ("message"@, JsonModel::Text(message)),
                            ("code"@, JsonModel::Int(code)),
                            ("data"@, JsonModel::Text(""@)),
                        ],
                    ),
                ),
                ("id"@, id),
            ],
        ),
    }
}

/// A result in an envelope.
pub fn success_envelope(envelope: Envelope, id: &Json, result: &Json) -> (r: Json)
    ensures
        r@ == success(envelope, id@, result@),
{
    match envelope {
        Envelope::Pre1 => {
            let mut items: Vec<Json> = Vec::new();
            items.push(result.copy());
            let r = Json::array(items);
            assert(r@->Array_0 =~= seq![result@]);
            r
        },
        Envelope::V1 => {
            let r = Json::empty_object().with("result", result.copy()).with("error", Json::Null).with(
                "id",
                id.copy(),
            );
            assert(r@->Object_0 =~= success(envelope, id@, result@)->Object_0);
            r
        },
        Envelope::V2 => {
            let r = Json::empty_object().with("jsonrpc", Json::text("2.0")).with("result", result.copy()).with(
                "id",
                id.copy(),
            );
            assert(r@->Object_0 =~= success(envelope, id@, result@)->Object_0);
            r
        },
    }
}

fn fault_json(code: i64, message: &str) -> (r: Json)
    ensures
        r@ == fault_object(code as int, message@),
{
    let r = Json::empty_object().with("fault", Json::text("Fault")).with("faultCode", Json::Int(code)).with(
        "faultString",
        Json::text(message),
    );
    assert(r@->Object_0 =~= fault_object(code as int, message@)->Object_0);
    r
}

/// A fault in an envelope.
pub fn fault_envelope(envelope: Envelope, id: &Json, code: i64, message: &str) -> (r: Json)
    ensures
        r@ == fault(envelope, id@, code as int, message@),
{
    match envelope {
        Envelope::Pre1 => fault_json(code, message),
        Envelope::V1 => {
            let r = Json::empty_object().with("result", Json::Null).with("error", fault_json(code, message)).with(
                "id",
                id.copy(),
            );
            assert(r@->Object_0 =~= fault(envelope, id@, code as int, message@)->Object_0);
            r
        },
        Envelope::V2 => {
            let error = Json::empty_object().with("message", Json::text(message)).with("code", Json::Int(code)).with(
                "data",
                Json::text(""),
            );
            assert(error@->Object_0 =~= seq![
                ("message"@, JsonModel::Text(message@)),
                ("code"@, JsonModel::Int(code as int)),
                ("data"@, JsonModel::Text(""@)),
            ]);
            let r = Json::empty_object().with("jsonrpc", Json::text("2.0")).with("error", error).with(
                "id",
                id.copy(),
            );
            assert(r@->Object_0 =~= fault(envelope, id@, code as int, message@)->Object_0);
            r
        },
    }
}

/// The dialect of a request, given the integral part of the number that its
/// version field writes.  Without that field a missing or falsy id (null, zero,
/// false, or an empty text, array or object) means the oldest one.  `None` when that field writes no finite number.
pub open spec fn dialect(req: JsonModel, version: Option<int>) -> Option<Envelope> {
    if req.text_member("jsonrpc"@) is Some {
        match version {
            Some(v) => Some(
                if v == 2 {
                    Envelope::V2
                } else {
                    Envelope::V1
                },
            ),
            None => None,
        }
    } else {
        Some(
            match req.member("id"@) {
                None => Envelope::Pre1,
                Some(JsonModel::Null) => Envelope::Pre1,
                Some(JsonModel::Int(n)) => if n == 0 {
                    Envelope::Pre1
                } else {
                    Envelope::V1
                },
                Some(JsonModel::Text(s)) => if s.len() == 0 {
                    Envelope::Pre1
                } else {
                    Envelope::V1
                },
                Some(JsonModel::Bool(b)) => if b {
                    Envelope::V1
                } else {
                    Envelope::Pre1
                },
                Some(JsonModel::Float(f)) => if f.num_eq(Real { bits: 0 }) {
                    Envelope::Pre1
                } else {
                    Envelope::V1
                },
                Some(JsonModel::Array(items)) => if items.len() == 0 {
                    Envelope::Pre1
                } else {
                    Envelope::V1
                },
                Some(JsonModel::Object(members)) => if members.len() == 0 {
                    Envelope::Pre1
                } else {
                    Envelope::V1
                },
            },
        )
    }
}

/// The version field of a request, when it is a string.
pub fn version_field(req: &Json) -> (r: Option<String>)
    ensures
        text::opt_text(r) == req@.text_member("jsonrpc"@),
{
    match req.get("jsonrpc") {
        Some(Json::Text(s)) => Some(s.clone()),
        _ => None,
    }
}

/// Select the dialect of a request.  `version` is the integral part of the
/// number that its version field writes; `None` when it writes no finite
/// number.
pub fn select_version(req: &Json, version: Option<i64>) -> (r: Option<Envelope>)
    ensures
        r == dialect(
            req@,
            match version {
                Some(v) => Some(v as int),
                None => None,
            },
        ),
{
    if let Some(Json::Text(_)) = req.get("jsonrpc") {
        return match version {
            Some(v) => if v == 2 {
                Some(Envelope::V2)
            } else {
                Some(Envelope::V1)
            },
            None => None,
        };
    }
    match req.get("id") {
        None => Some(Envelope::Pre1),
        Some(Json::Null) => Some(Envelope::Pre1),
        Some(Json::Int(n)) => if *n == 0 {
            Some(Envelope::Pre1)
        } else {
            Some(Envelope::V1)
        },
        Some(Json::UInt(n)) => if *n == 0 {
            Some(Envelope::Pre1)
        } else {
            Some(Envelope::V1)
        },
        Some(Json::Text(s)) => if s.as_str().is_empty() {
            Some(Envelope::Pre1)
        } else {
            Some(Envelope::V1)
        },
        Some(Json::Bool(b)) => if *b {
            Some(Envelope::V1)
        } else {
            Some(Envelope::Pre1)
        },
        Some(Json::Float(f)) => if f.equals(&Real::from_bits(0)) {
            Some(Envelope::Pre1)
        } else {
            Some(Envelope::V1)
        },
        Some(Json::Array(items)) => if items.len() == 0 {
            Some(Envelope::Pre1)
        } else {
            Some(Envelope::V1)
        },
        Some(Json::Object(members)) => if members.len() == 0 {
            Some(Envelope::Pre1)
        } else {
            Some(Envelope::V1)
        },
    }
}

// ---------------------------------------------------------------------
// methods and their arguments
// ---------------------------------------------------------------------

/// A method of the service.
#[derive(Debug, Clone, Copy, PartialEq, Eq, Structural)]
pub enum Method {
    Check,
    GetStrikes,
    StrikesGrid,
    StrikesRaster,
    GlobalGrid,
    LocalGrid,
}

/// The method with the given name.
pub open spec fn method_named(name: Seq<char>) -> Option<Method> {
    if name == "check"@ {
        Some(Method::Check)
    } else if name == "get_strikes"@ {
        Some(Method::GetStrikes)
    } else if name == "get_strikes_grid"@ {
        Some(Method::StrikesGrid)
    } else if name == "get_strikes_raster"@ || name == "get_strokes_raster"@ {
        Some(Method::StrikesRaster)
    } else if name == "get_global_strikes_grid"@ {
        Some(Method::GlobalGrid)
    } else if name == "get_local_strikes_grid"@ {
        Some(Method::LocalGrid)
    } else {
        None
    }
}

/// The parameters of a method: names, and whether they are required.
pub open spec fn signature(method: Method) -> Seq<(Seq<char>, bool)> {
    match method {
        Method::Check => Seq::empty(),
        Method::GetStrikes => seq![("minute_length"@, true), ("id_or_offset"@, false)],
        Method::StrikesGrid | Method::StrikesRaster => seq![
            ("minute_length"@, true),
            ("grid_base_length"@, false),
            ("minute_offset"@, false),
            ("region"@, false),
            ("count_threshold"@, false),
        ],
        Method::GlobalGrid => seq![
            ("minute_length"@, true),
            ("grid_base_length"@, false),
            ("minute_offset"@, false),
            ("count_threshold"@, false),
        ],
        Method::LocalGrid => seq![
            ("x"@, true),
            ("y"@, true),
            ("grid_base_length"@, false),
            ("minute_length"@, false),
            ("minute_offset"@, false),
            ("count_threshold"@, false),
            ("data_area"@, false),
        ],
    }
}

/// The default values of the parameters of a method.
pub open spec fn defaults(method: Method) -> Seq<JsonModel> {
    match method {
        Method::Check => Seq::empty(),
        Method::GetStrikes => seq![JsonModel::Null, JsonModel::Int(0)],
        Method::StrikesGrid | Method::StrikesRaster => seq![
            JsonModel::Null,
            JsonModel::Int(10_000),
            JsonModel::Int(0),
            JsonModel::Int(1),
            JsonModel::Int(0),
        ],
        Method::GlobalGrid => seq![
            JsonModel::Null,
            JsonModel::Int(10_000),
            JsonModel::Int(0),
            JsonModel::Int(0),
        ],
        Method::LocalGrid => seq![
            JsonModel::Null,
            JsonModel::Null,
            JsonModel::Int(10_000),
            JsonModel::Int(60),
            JsonModel::Int(0),
            JsonModel::Int(0),
            JsonModel::Int(5),
        ],
    }
}

/// Names and requirements of a parameter list.
pub open spec fn signature_view(v: Seq<(&'static str, bool)>) -> Seq<(Seq<char>, bool)> {
    v.map_values(|p: (&'static str, bool)| (p.0@, p.1))
}

/// The method with the given name.
pub fn find_method(name: &str) -> (r: Option<Method>)
    ensures
        r == method_named(name@),
{
    if text::same_text(name, "check") {
        Some(Method::Check)
    } else if text::same_text(name, "get_strikes") {
        Some(Method::GetStrikes)
    } else if text::same_text(name, "get_strikes_grid") {
        Some(Method::StrikesGrid)
    } else if text::same_text(name, "get_strikes_raster") || text::same_text(name, "get_strokes_raster") {
        Some(Method::StrikesRaster)
    } else if text::same_text(name, "get_global_strikes_grid") {
        Some(Method::GlobalGrid)
    } else if text::same_text(name, "get_local_strikes_grid") {
        Some(Method::LocalGrid)
    } else {
        None
    }
}

/// The parameters of the method with the given name: names, and whether they
/// are required.
pub fn method_spec(name: &str) -> (r: Option<Vec<(&'static str, bool)>>)
    ensures
        r is Some <==> method_named(name@) is Some,
        r matches Some(v) ==> signature_view(v@) == signature(method_named(name@)->0),
{
    match find_method(name) {
        Some(method) => Some(parameters(method)),
        None => None,
    }
}

fn parameters(method: Method) -> (r: Vec<(&'static str, bool)>)
    ensures
        signature_view(r@) == signature(method),
{
    let mut v: Vec<(&'static str, bool)> = Vec::new();
    match method {
        Method::Check => {},
        Method::GetStrikes => {
            v.push(("minute_length", true));
            v.push(("id_or_offset", false));
        },
        Method::StrikesGrid | Method::StrikesRaster => {
            v.push(("minute_length", true));
            v.push(("grid_base_length", false));
            v.push(("minute_offset", false));
            v.push(("region", false));
            v.push(("count_threshold", false));
        },
        Method::GlobalGrid => {
            v.push(("minute_length", true));
            v.push(("grid_base_length", false));
            v.push(("minute_offset", false));
            v.push(("count_threshold", false));
        },
        Method::LocalGrid => {
            v.push(("x", true));
            v.push(("y", true));
            v.push(("grid_base_length", false));
            v.push(("minute_length", false));
            v.push(("minute_offset", false));
            v.push(("count_threshold", false));
            v.push(("data_area", false));
        },
    }
    assert(signature_view(v@) =~= signature(method));
    v
}

/// The default values of the parameters of a method.
pub fn method_defaults(method: Method) -> (r: Vec<Json>)
    ensures
        json::models(r@) == defaults(method),
{
    let mut v: Vec<Json> = Vec::new();
    match method {
        Method::Check => {},
        Method::GetStrikes => {
            v.push(Json::Null);
            v.push(Json::Int(0));
        },
        Method::StrikesGrid | Method::StrikesRaster => {
            v.push(Json::Null);
            v.push(Json::Int(10_000));
            v.push(Json::Int(0));
            v.push(Json::Int(1));
            v.push(Json::Int(0));
        },
        Method::GlobalGrid => {
            v.push(Json::Null);
            v.push(Json::Int(10_000));
            v.push(Json::Int(0));
            v.push(Json::Int(0));
        },
        Method::LocalGrid => {
            v.push(Json::Null);
            v.push(Json::Null);
            v.push(Json::Int(10_000));
            v.push(Json::Int(60));
            v.push(Json::Int(0));
            v.push(Json::Int(0));
            v.push(Json::Int(5));
        },
    }
    assert(json::models(v@) =~= defaults(method));
    v
}

/// Why the arguments of a request cannot be resolved.
#[derive(Debug, PartialEq, Eq)]
pub enum ArgError {
    /// `params` is neither an array nor an object.
    InvalidParamsType,
    /// A required argument is missing.  One that is present as `null` is not.
    MissingRequired(&'static str),
}

/// What an [`ArgError`] holds.
pub enum ArgFault {
    InvalidParamsType,
    MissingRequired(Seq<char>),
}

impl View for ArgError {
    type V = ArgFault;

    open spec fn view(&self) -> ArgFault {
        match self {
            ArgError::InvalidParamsType => ArgFault::InvalidParamsType,
            ArgError::MissingRequired(name) => ArgFault::MissingRequired(name@),
        }
    }
}

/// The value that `params` provide for parameter `i` with the given name: by
/// position in an array, by name in an object.
pub open spec fn provided(params: JsonModel, name: Seq<char>, i: int) -> Option<JsonModel> {
    match params {
        JsonModel::Array(items) => if 0 <= i < items.len() {
            Some(items[i])
        } else {
            None
        },
        JsonModel::Object(_) => params.member(name),
        _ => None,
    }
}

/// The first required parameter at or after `i` that `params` do not provide.
pub open spec fn first_missing(params: JsonModel, sig: Seq<(Seq<char>, bool)>, i: int) -> Option<int>
    decreases sig.len() - i,
{
    if i < 0 || i >= sig.len() {
        None
    } else if sig[i].1 && provided(params, sig[i].0, i) is None {
        Some(i)
    } else {
        first_missing(params, sig, i + 1)
    }
}

/// The value of parameter `i`.
pub open spec fn argument(params: JsonModel, method: Method, i: int) -> JsonModel {
    match provided(params, signature(method)[i].0, i) {
        Some(v) => v,
        None => defaults(method)[i],
    }
}

/// The arguments of a request: provided values, and defaults for the rest.
pub open spec fn arguments(method: Method, params: JsonModel) -> Result<Seq<JsonModel>, ArgFault> {
    if !(params is Null) && !(params is Array) && !(params is Object) {
        Err(ArgFault::InvalidParamsType)
    } else {
        match first_missing(params, signature(method), 0) {
            Some(k) => Err(ArgFault::MissingRequired(signature(method)[k].0)),
            None => Ok(Seq::new(signature(method).len(), |i: int| argument(params, method, i))),
        }
    }
}

/// The value that `params` provide for one parameter.
fn provided_value(params: &Json, name: &str, i: usize) -> (r: Option<Json>)
    ensures
        r matches Some(v) ==> provided(params@, name@, i as int) == Some(v@),
        r is None ==> provided(params@, name@, i as int) is None,
{
    match params {
        Json::Array(items) => {
            if i < items.len() {
                assert((params@->Array_0)[i as int] == items@[i as int]@);
                Some(items[i].copy())
            } else {
                None
            }
        },
        Json::Object(_) => match params.get(name) {
            Some(v) => Some(v.copy()),
            None => None,
        },
        _ => None,
    }
}

/// Resolve the arguments of a request: a positional array or a named object.
pub fn resolve_args(method: Method, params: &Json) -> (r: Result<Vec<Json>, ArgError>)
    ensures
        match arguments(method, params@) {
            Ok(args) => r matches Ok(v) && json::models(v@) == args,
            Err(e) => r matches Err(f) && f@ == e,
        },
{
    match params {
        Json::Null | Json::Array(_) | Json::Object(_) => {},
        _ => {
            return Err(ArgError::InvalidParamsType);
        },
    }
    let sig = parameters(method);
    let ghost names = signature(method);
    let fallback = method_defaults(method);
    assert(fallback@.len() == defaults(method).len()) by {
        assert(json::models(fallback@).len() == fallback@.len());
    }
    assert(names.len() == defaults(method).len());
    let mut args: Vec<Json> = Vec::new();
    let mut i: usize = 0;
    while i < sig.len()
        invariant
            i <= sig@.len(),
            names == signature(method),
            signature_view(sig@) == names,
            json::models(fallback@) == defaults(method),
            names.len() == defaults(method).len(),
            fallback@.len() == names.len(),
            params@ is Null || params@ is Array || params@ is Object,
            first_missing(params@, names, 0) == first_missing(params@, names, i as int),
            args@.len() == i,
            forall|j: int| 0 <= j < i ==> (#[trigger] args@[j])@ == argument(params@, method, j),
        decreases sig@.len() - i,
    {
        assert(names[i as int] == (sig@[i as int].0@, sig@[i as int].1));
        assert(json::models(fallback@)[i as int] == fallback@[i as int]@);
        match provided_value(params, sig[i].0, i) {
            Some(v) => {
                args.push(v);
            },
            None => {
                if sig[i].1 {
                    return Err(ArgError::MissingRequired(sig[i].0));
                }
                args.push(fallback[i].copy());
            },
        }
        i = i + 1;
    }
    assert(json::models(args@) =~= Seq::new(names.len(), |k: int| argument(params@, method, k)));
    Ok(args)
}

// ---------------------------------------------------------------------
// invocation
// ---------------------------------------------------------------------

/// What calling a method leads to.
#[derive(Debug)]
pub enum Invocation {
    /// A result.
    Ready(Json),
    /// A grid request to produce.
    Serve(GridRequest),
}

/// What an [`Invocation`] holds.
pub enum Answer {
    Ready(JsonModel),
    Serve(GridRequest),
}

impl View for Invocation {
    type V = Answer;

    open spec fn view(&self) -> Answer {
        match self {
            Invocation::Ready(v) => Answer::Ready(v@),
            Invocation::Serve(g) => Answer::Serve(*g),
        }
    }
}

/// The grid request that the arguments of a method stand for.
pub open spec fn wanted(method: Method, args: Seq<JsonModel>) -> Option<GridRequest> {
    match method {
        Method::StrikesGrid => service::wanted_region(args[0], args[1], args[2], args[3], args[4]),
        Method::StrikesRaster => service::wanted_region(args[0], args[1], args[2], args[3], JsonModel::Int(0)),
        Method::GlobalGrid => service::wanted_global(args[0], args[1], args[2], args[3]),
        Method::LocalGrid => service::wanted_local(
            args[0],
            args[1],
            args[2],
            args[3],
            args[4],
            args[5],
            args[6],
        ),
        _ => None,
    }
}

/// The least grid size of a method.
pub open spec fn least_length(method: Method) -> int {
    if method == Method::GlobalGrid {
        service::GLOBAL_MIN_GRID_BASE_LENGTH as int
    } else {
        service::MIN_GRID_BASE_LENGTH as int
    }
}

/// The grid request that an answer asks to produce.
pub open spec fn served_by(answer: Answer) -> Option<GridRequest> {
    match answer {
        Answer::Serve(g) => Some(g),
        Answer::Ready(_) => None,
    }
}

/// The answer to a call: the count of checks so far, nothing for the plain
/// strikes, and the grid request for a permitted data request.  Any other data
/// request is answered with an empty object.
pub open spec fn answer<T>(before: Service<T>, request: Request, method: Method, args: Seq<JsonModel>) -> Answer {
    match method {
        Method::Check => Answer::Ready(
            JsonModel::Object(seq![("count"@, JsonModel::Int(before.checks() + 1))]),
        ),
        Method::GetStrikes => Answer::Ready(JsonModel::Null),
        _ => match service::granted(before.blocked(), request, wanted(method, args), least_length(method)) {
            Some(g) => Answer::Serve(g),
            None => Answer::Ready(JsonModel::Object(Seq::empty())),
        },
    }
}

/// The effect of a call: a check is counted, and a refused data request has its
/// reason recorded.
pub open spec fn called<T>(
    before: Service<T>,
    after: Service<T>,
    request_before: Request,
    request_after: Request,
    method: Method,
    args: Seq<JsonModel>,
) -> bool {
    &&& after.caches() == before.caches()
    &&& after.blocked() == before.blocked()
    &&& after.checks() == before.checks() + (if method == Method::Check {
        1int
    } else {
        0int
    })
    &&& match method {
        Method::Check | Method::GetStrikes => request_after == request_before,
        _ => service::validated(
            before.blocked(),
            request_before,
            request_after,
            wanted(method, args),
            least_length(method),
            served_by(answer(before, request_before, method, args)),
        ),
    }
}

fn invocation(served: Option<GridRequest>) -> (r: Invocation)
    ensures
        served_by(r@) == served,
        r@ matches Answer::Ready(v) ==> v == JsonModel::Object(Seq::empty()),
{
    match served {
        Some(g) => Invocation::Serve(g),
        None => Invocation::Ready(Json::empty_object()),
    }
}

/// Call a method.
pub fn invoke<T>(service: &mut Service<T>, request: &mut Request, method: Method, args: &[Json]) -> (r: Invocation)
    requires
        args@.len() == signature(method).len(),
        old(service).checks() < i64::MAX,
    ensures
        called(*old(service), *final(service), *old(request), *final(request), method, json::models(args@)),
        r@ == answer(*old(service), *old(request), method, json::models(args@)),
{
    match method {
        Method::Check => Invocation::Ready(service.check()),
        Method::GetStrikes => {
            let _ = service.get_strikes(request, &args[0], &args[1]);
            Invocation::Ready(Json::Null)
        },
        Method::StrikesGrid => invocation(
            service.jsonrpc_get_strikes_grid(request, &args[0], &args[1], &args[2], &args[3], &args[4]),
        ),
        Method::StrikesRaster => invocation(
            service.jsonrpc_get_strikes_raster(request, &args[0], &args[1], &args[2], &args[3]),
        ),
        Method::GlobalGrid => invocation(
            service.jsonrpc_get_global_strikes_grid(request, &args[0], &args[1], &args[2], &args[3]),
        ),
        Method::LocalGrid => invocation(
            service.jsonrpc_get_local_strikes_grid(
                request,
                &args[0],
                &args[1],
                &args[2],
                &args[3],
                &args[4],
                &args[5],
                &args[6],
            ),
        ),
    }
}

// ---------------------------------------------------------------------
// requests
// ---------------------------------------------------------------------

/// What a request asks for.
pub enum Verdict {
    /// A fault, in an envelope with an id, and the metadata besides the outcome.
    Refuse { envelope: Envelope, id: JsonModel, code: int, message: Seq<char>, meta: MetaModel },
    /// A call, answered in an envelope.
    Call { envelope: Envelope, method: Method, args: Seq<JsonModel>, meta: MetaModel },
}

/// The metadata of a request object with the given method.
pub open spec fn request_meta(
    req: JsonModel,
    method: Option<Seq<char>>,
    id_json: Seq<char>,
    params_json: Seq<char>,
) -> MetaModel {
    MetaModel {
        method,
        id: id_text(req.member_or_null("id"@), id_json),
        params: params_summary(req.member_or_null("params"@), params_json),
        outcome: None,
    }
}

/// What a request asks for.  `None` stands for a body that is no JSON.
pub open spec fn judged(
    body: Option<JsonModel>,
    version: Option<int>,
    id_json: Seq<char>,
    params_json: Seq<char>,
) -> Verdict {
    let refuse = |code: int, message: Seq<char>, meta: MetaModel|
        Verdict::Refuse { envelope: Envelope::Pre1, id: JsonModel::Null, code, message, meta };
    match body {
        None => refuse(INVALID_REQUEST as int, "parse error"@, blank_meta()),
        Some(req) => {
            if !(req is Object) {
                refuse(INVALID_REQUEST as int, "Invalid Request: expected a JSON object"@, blank_meta())
            } else {
                match dialect(req, version) {
                    None => refuse(INVALID_REQUEST as int, "invalid jsonrpc version field"@, blank_meta()),
                    Some(envelope) => judged_object(req, envelope, id_json, params_json),
                }
            }
        },
    }
}

/// What a request object in the given dialect asks for.
pub open spec fn judged_object(
    req: JsonModel,
    envelope: Envelope,
    id_json: Seq<char>,
    params_json: Seq<char>,
) -> Verdict {
    let id = req.member_or_null("id"@);
    let meta = request_meta(req, req.text_member("method"@), id_json, params_json);
    match req.text_member("method"@) {
        None => Verdict::Refuse {
            envelope: Envelope::Pre1,
            id: JsonModel::Null,
            code: INVALID_REQUEST as int,
            message: "Invalid Request: missing method"@,
            meta,
        },
        Some(name) => match method_named(name) {
            None => Verdict::Refuse {
                envelope,
                id,
                code: METHOD_NOT_FOUND as int,
                message: "function "@ + name + " not found"@,
                meta,
            },
            Some(method) => match arguments(method, req.member_or_null("params"@)) {
                Err(ArgFault::InvalidParamsType) => Verdict::Refuse {
                    envelope: Envelope::Pre1,
                    id: JsonModel::Null,
                    code: INVALID_PARAMS as int,
                    message: "Invalid params: expected an array or object"@,
                    meta,
                },
                Err(ArgFault::MissingRequired(parameter)) => Verdict::Refuse {
                    envelope,
                    id,
                    code: FAILURE as int,
                    message: "missing 1 required positional argument: '"@ + parameter + "'"@,
                    meta,
                },
                Ok(args) => Verdict::Call { envelope, method, args, meta },
            },
        },
    }
}

/// A response and its metadata.
#[derive(Debug)]
pub struct Reply {
    pub response: Json,
    pub meta: RequestMeta,
}

/// A call whose grid request is still to be produced.
#[derive(Debug)]
pub struct Pending {
    pub envelope: Envelope,
    pub id: Json,
    pub meta: RequestMeta,
}

/// The next step of a request.
#[derive(Debug)]
pub enum Step {
    /// Send a response.
    Respond(Reply),
    /// Produce a grid request, then finish.
    Produce(GridRequest, Pending),
}

/// How a call ended, by the reason that is recorded on its request.
pub open spec fn call_outcome(request: Request) -> OutcomeModel {
    match text::opt_text(request.blocked_reason) {
        Some(reason) => OutcomeModel::Blocked(reason),
        None => OutcomeModel::Success,
    }
}

/// Whether a reply holds a fault.
pub open spec fn replies_fault(
    reply: Reply,
    envelope: Envelope,
    id: JsonModel,
    code: int,
    message: Seq<char>,
    meta: MetaModel,
) -> bool {
    &&& reply.response@ == fault(envelope, id, code, message)
    &&& reply.meta@ == (MetaModel { outcome: Some(OutcomeModel::Fault(code, message)), ..meta })
}

/// Whether a reply holds the result of a call.
pub open spec fn replies_result(
    reply: Reply,
    envelope: Envelope,
    id: JsonModel,
    result: JsonModel,
    request: Request,
    meta: MetaModel,
) -> bool {
    &&& reply.response@ == success(envelope, id, result)
    &&& reply.meta@ == (MetaModel { outcome: Some(call_outcome(request)), ..meta })
}

fn fault_reply(envelope: Envelope, id: &Json, code: i64, message: String, meta: RequestMeta) -> (r: Reply)
    ensures
        replies_fault(r, envelope, id@, code as int, message@, meta@),
{
    let response = fault_envelope(envelope, id, code, message.as_str());
    let meta = RequestMeta {
        method: meta.method,
        id: meta.id,
        params: meta.params,
        outcome: Some(Outcome::Fault { code, message }),
    };
    Reply { response, meta }
}

impl Pending {
    /// Wrap the response that was produced.
    pub fn finish(self, request: &Request, result: &Json) -> (r: Reply)
        ensures
            replies_result(r, self.envelope, self.id@, result@, *request, self.meta@),
    {
        let outcome = match &request.blocked_reason {
            Some(reason) => Outcome::Blocked(reason.clone()),
            None => Outcome::Success,
        };
        let meta = RequestMeta {
            method: self.meta.method,
            id: self.meta.id,
            params: self.meta.params,
            outcome: Some(outcome),
        };
        Reply { response: success_envelope(self.envelope, &self.id, result), meta }
    }
}

fn member_or_null(req: &Json, name: &str) -> (r: Json)
    ensures
        r@ == req@.member_or_null(name@),
{
    match req.get(name) {
        Some(v) => v.copy(),
        None => Json::Null,
    }
}

/// The step that answers a verdict.
pub open spec fn answers<T>(
    before: Service<T>,
    after: Service<T>,
    request_before: Request,
    request_after: Request,
    verdict: Verdict,
    id: JsonModel,
    step: Step,
) -> bool {
    match verdict {
        Verdict::Refuse { envelope, id, code, message, meta } => {
            &&& after == before
            &&& request_after == request_before
            &&& step matches Step::Respond(reply) && replies_fault(reply, envelope, id, code, message, meta)
        },
        Verdict::Call { envelope, method, args, meta } => {
            &&& called(before, after, request_before, request_after, method, args)
            &&& match answer(before, request_before, method, args) {
                Answer::Ready(result) => step matches Step::Respond(reply) && replies_result(
                    reply,
                    envelope,
                    id,
                    result,
                    request_after,
                    meta,
                ),
                Answer::Serve(grid) => step matches Step::Produce(g, pending) && {
                    &&& g == grid
                    &&& pending.envelope == envelope
                    &&& pending.id@ == id
                    &&& pending.meta@ == meta
                },
            }
        },
    }
}

/// Handle a request object.
fn process_request<T>(
    service: &mut Service<T>,
    request: &mut Request,
    req: &Json,
    version: Option<i64>,
    id_json: &str,
    params_json: &str,
) -> (r: Step)
    requires
        old(service).checks() < i64::MAX,
    ensures
        answers(
            *old(service),
            *final(service),
            *old(request),
            *final(request),
            judged(
                Some(req@),
                match version {
                    Some(v) => Some(v as int),
                    None => None,
                },
                id_json@,
                params_json@,
            ),
            req@.member_or_null("id"@),
            r,
        ),
{
    if !req.is_object() {
        return Step::Respond(
            fault_reply(
                Envelope::Pre1,
                &Json::Null,
                INVALID_REQUEST,
                String::from_str("Invalid Request: expected a JSON object"),
                RequestMeta::default(),
            ),
        );
    }
    let envelope = match select_version(req, version) {
        Some(envelope) => envelope,
        None => {
            return Step::Respond(
                fault_reply(
                    Envelope::Pre1,
                    &Json::Null,
                    INVALID_REQUEST,
                    String::from_str("invalid jsonrpc version field"),
                    RequestMeta::default(),
                ),
            );
        },
    };
    let id = member_or_null(req, "id");
    let params = member_or_null(req, "params");
    let mut meta = RequestMeta {
        method: None,
        id: render_id(&id, id_json),
        params: summarize_params(&params, params_json),
        outcome: None,
    };
    let name = match req.get("method") {
        Some(Json::Text(s)) => s.clone(),
        _ => {
            return Step::Respond(
                fault_reply(
                    Envelope::Pre1,
                    &Json::Null,
                    INVALID_REQUEST,
                    String::from_str("Invalid Request: missing method"),
                    meta,
                ),
            );
        },
    };
    meta.method = Some(name.clone());
    let method = match find_method(name.as_str()) {
        Some(method) => method,
        None => {
            let message = String::from_str("function ").concat(name.as_str()).concat(" not found");
            return Step::Respond(fault_reply(envelope, &id, METHOD_NOT_FOUND, message, meta));
        },
    };
    let args = match resolve_args(method, &params) {
        Ok(args) => args,
        Err(ArgError::InvalidParamsType) => {
            return Step::Respond(
                fault_reply(
                    Envelope::Pre1,
                    &Json::Null,
                    INVALID_PARAMS,
                    String::from_str("Invalid params: expected an array or object"),
                    meta,
                ),
            );
        },
        Err(ArgError::MissingRequired(parameter)) => {
            let message = String::from_str("missing 1 required positional argument: '").concat(parameter).concat("'");
            return Step::Respond(fault_reply(envelope, &id, FAILURE, message, meta));
        },
    };
    assert(args@.len() == json::models(args@).len());
    let pending = Pending { envelope, id, meta };
    match invoke(service, request, method, args.as_slice()) {
        Invocation::Ready(result) => Step::Respond(pending.finish(request, &result)),
        Invocation::Serve(grid) => Step::Produce(grid, pending),
    }
}

/// Handle a request: answer it, or yield the grid request that is to be
/// produced.  `body` is the request value, `None` when the body is no JSON;
/// `version` is the integral part of the number in its version field, and
/// `id_json` and `params_json` are the JSON texts of its id and params.
pub fn process<T>(
    service: &mut Service<T>,
    request: &mut Request,
    body: Option<&Json>,
    version: Option<i64>,
    id_json: &str,
    params_json: &str,
) -> (r: Step)
    requires
        old(service).checks() < i64::MAX,
    ensures
        answers(
            *old(service),
            *final(service),
            *old(request),
            *final(request),
            judged(
                match body {
                    Some(req) => Some(req@),
                    None => None,
                },
                match version {
                    Some(v) => Some(v as int),
                    None => None,
                },
                id_json@,
                params_json@,
            ),
            match body {
                Some(req) => req@.member_or_null("id"@),
                None => JsonModel::Null,
            },
            r,
        ),
{
    match body {
        Some(req) => process_request(service, request, req, version, id_json, params_json),
        None => Step::Respond(
            fault_reply(
                Envelope::Pre1,
                &Json::Null,
                INVALID_REQUEST,
                String::from_str("parse error"),
                RequestMeta::default(),
            ),
        ),
    }
}

// ---------------------------------------------------------------------
// laws
// ---------------------------------------------------------------------

/// A refused data request is answered with an empty object, and its outcome
/// carries the reason.
pub proof fn a_refused_request_gets_an_empty_object<T>(
    before: Service<T>,
    after: Service<T>,
    request_before: Request,
    request_after: Request,
    method: Method,
    args: Seq<JsonModel>,
    reason: Seq<char>,
)
    requires
        called(before, after, request_before, request_after, method, args),
        wanted(method, args) matches Some(grid) && service::refusal(
            before.blocked(),
            request_before,
            request_before.client(),
            request_before.version(),
            grid.grid_base_length as int,
            least_length(method),
        ) == Some(reason),
    ensures
        answer(before, request_before, method, args) == Answer::Ready(JsonModel::Object(Seq::empty())),
        call_outcome(request_after) == OutcomeModel::Blocked(reason),
{
}

/// Positional and named parameters with the same values mean the same
/// arguments.
pub proof fn named_and_positional_params_agree(
    method: Method,
    items: Seq<JsonModel>,
    fields: Seq<(Seq<char>, JsonModel)>,
)
    requires
        items.len() == signature(method).len(),
        forall|i: int|
            0 <= i < items.len() ==> JsonModel::Object(fields).member((#[trigger] signature(method)[i]).0) == Some(
                items[i],
            ),
    ensures
        arguments(method, JsonModel::Array(items)) == Ok::<Seq<JsonModel>, ArgFault>(items),
        arguments(method, JsonModel::Object(fields)) == Ok::<Seq<JsonModel>, ArgFault>(items),
{
    let sig = signature(method);
    lemma_all_provided(JsonModel::Array(items), sig, 0);
    lemma_all_provided(JsonModel::Object(fields), sig, 0);
    assert(Seq::new(sig.len(), |i: int| argument(JsonModel::Array(items), method, i)) =~= items);
    assert(Seq::new(sig.len(), |i: int| argument(JsonModel::Object(fields), method, i)) =~= items);
}

/// Nothing is missing when every parameter is provided.
proof fn lemma_all_provided(params: JsonModel, sig: Seq<(Seq<char>, bool)>, i: int)
    requires
        0 <= i,
        forall|j: int| 0 <= j < sig.len() ==> provided(params, (#[trigger] sig[j]).0, j) is Some,
    ensures
        first_missing(params, sig, i) is None,
    decreases sig.len() - i,
{
    if i < sig.len() {
        lemma_all_provided(params, sig, i + 1);
    }
}

/// The grid request that the method with a name means by its params.
pub open spec fn meant(name: Seq<char>, params: JsonModel) -> Option<GridRequest> {
    match method_named(name) {
        Some(method) => match arguments(method, params) {
            Ok(args) => wanted(method, args),
            Err(_) => None,
        },
        None => None,
    }
}

/// The methods are found by their names, and nothing else is a method.
pub proof fn methods_have_their_names(name: Seq<char>)
    ensures
        method_named("check"@) == Some(Method::Check),
        method_named("get_strikes"@) == Some(Method::GetStrikes),
        method_named("get_strikes_grid"@) == Some(Method::StrikesGrid),
        method_named("get_strikes_raster"@) == Some(Method::StrikesRaster),
        method_named("get_strokes_raster"@) == Some(Method::StrikesRaster),
        method_named("get_global_strikes_grid"@) == Some(Method::GlobalGrid),
        method_named("get_local_strikes_grid"@) == Some(Method::LocalGrid),
        method_named(name) is Some ==> name == "check"@ || name == "get_strikes"@ || name == "get_strikes_grid"@ || name
            == "get_strikes_raster"@ || name == "get_strokes_raster"@ || name == "get_global_strikes_grid"@ || name
            == "get_local_strikes_grid"@,
{
    reveal_strlit("check");
    reveal_strlit("get_strikes");
    reveal_strlit("get_strikes_grid");
    reveal_strlit("get_strikes_raster");
    reveal_strlit("get_strokes_raster");
    reveal_strlit("get_global_strikes_grid");
    reveal_strlit("get_local_strikes_grid");
    assert("check"@.len() == 5 && "get_strikes"@.len() == 11 && "get_strikes_grid"@.len() == 16);
    assert("get_strikes_raster"@.len() == 18 && "get_strokes_raster"@.len() == 18);
    assert("get_global_strikes_grid"@.len() == 23 && "get_local_strikes_grid"@.len() == 22);
}

/// Positional params mean, in this order: for the grid of a region the length,
/// the grid size, the offset, the region and the threshold; for the world-wide
/// grid the same without the region; for a local grid its tile, the grid size,
/// the length, the offset, the threshold and the data area.
pub proof fn positional_params_have_their_order(
    length: i64,
    size: i64,
    offset: i64,
    region: i64,
    threshold: i64,
    x: i64,
    y: i64,
    data_area: i64,
)
    requires
        1 <= length <= 1440,
        length - 1440 <= offset <= 0,
        threshold >= 0,
        1 <= region <= 7,
        data_area >= 5,
    ensures
        ({
            let l = JsonModel::Int(length as int);
            let s = JsonModel::Int(size as int);
            let o = JsonModel::Int(offset as int);
            let r = JsonModel::Int(region as int);
            let t = JsonModel::Int(threshold as int);
            let region_grid = GridRequest {
                kind: GridKind::Region { region },
                minute_length: length,
                minute_offset: offset,
                grid_base_length: size,
                count_threshold: threshold,
            };
            &&& meant("get_strikes_grid"@, JsonModel::Array(seq![l, s, o, r, t])) == Some(region_grid)
            &&& meant("get_strikes_raster"@, JsonModel::Array(seq![l, s, o, r])) == Some(
                GridRequest { count_threshold: 0, ..region_grid },
            )
            &&& meant("get_global_strikes_grid"@, JsonModel::Array(seq![l, s, o, t])) == Some(
                GridRequest { kind: GridKind::Global, ..region_grid },
            )
            &&& meant(
                "get_local_strikes_grid"@,
                JsonModel::Array(
                    seq![
                        JsonModel::Int(x as int),
                        JsonModel::Int(y as int),
                        s,
                        l,
                        o,
                        t,
                        JsonModel::Int(data_area as int),
                    ],
                ),
            ) == Some(GridRequest { kind: GridKind::Local { x, y, data_area }, ..region_grid })
        }),
{
    let l = JsonModel::Int(length as int);
    let s = JsonModel::Int(size as int);
    let o = JsonModel::Int(offset as int);
    let r = JsonModel::Int(region as int);
    let t = JsonModel::Int(threshold as int);
    methods_have_their_names("check"@);
    service::arguments_in_range_are_kept(x, y, data_area, region, length, size, offset, threshold);
    service::arguments_in_range_are_kept(x, y, data_area, region, length, size, offset, 0);
    let five = seq![l, s, o, r, t];
    lemma_positional(Method::StrikesGrid, five, 5);
    let four = seq![l, s, o, r];
    lemma_positional(Method::StrikesRaster, four, 4);
    let global = seq![l, s, o, t];
    lemma_positional(Method::GlobalGrid, global, 4);
    let seven = seq![JsonModel::Int(x as int), JsonModel::Int(y as int), s, l, o, t, JsonModel::Int(data_area as int)];
    lemma_positional(Method::LocalGrid, seven, 7);
}

/// Params that are left out have their defaults: a grid of ten kilometres, no
/// offset, Europe, no threshold, and for a local grid an hour and five degrees.
pub proof fn omitted_params_have_their_defaults(length: i64, x: i64, y: i64)
    requires
        1 <= length <= 1440,
    ensures
        ({
            let l = JsonModel::Int(length as int);
            let region_grid = GridRequest {
                kind: GridKind::Region { region: 1 },
                minute_length: length,
                minute_offset: 0,
                grid_base_length: 10_000,
                count_threshold: 0,
            };
            &&& meant("get_strikes_grid"@, JsonModel::Array(seq![l])) == Some(region_grid)
            &&& meant("get_strikes_raster"@, JsonModel::Array(seq![l])) == Some(region_grid)
            &&& meant("get_global_strikes_grid"@, JsonModel::Array(seq![l])) == Some(
                GridRequest { kind: GridKind::Global, ..region_grid },
            )
            &&& meant(
                "get_local_strikes_grid"@,
                JsonModel::Array(seq![JsonModel::Int(x as int), JsonModel::Int(y as int)]),
            ) == Some(GridRequest { kind: GridKind::Local { x, y, data_area: 5 }, minute_length: 60, ..region_grid })
        }),
{
    let l = JsonModel::Int(length as int);
    methods_have_their_names("check"@);
    service::arguments_in_range_are_kept(x, y, 5, 1, length, 10_000, 0, 0);
    service::arguments_in_range_are_kept(x, y, 5, 1, 60, 10_000, 0, 0);
    lemma_positional(Method::StrikesGrid, seq![l], 1);
    lemma_positional(Method::StrikesRaster, seq![l], 1);
    lemma_positional(Method::GlobalGrid, seq![l], 1);
    lemma_positional(Method::LocalGrid, seq![JsonModel::Int(x as int), JsonModel::Int(y as int)], 2);
}

/// With the required params in front, the arguments are the items and then the
/// defaults.
proof fn lemma_positional(method: Method, items: Seq<JsonModel>, n: int)
    requires
        items.len() == n <= signature(method).len(),
        forall|i: int| n <= i < signature(method).len() ==> !(#[trigger] signature(method)[i]).1,
    ensures
        arguments(method, JsonModel::Array(items)) matches Ok(args) && args.len() == signature(method).len() && (
        forall|i: int| 0 <= i < n ==> #[trigger] args[i] == items[i]) && (forall|i: int|
            n <= i < signature(method).len() ==> #[trigger] args[i] == defaults(method)[i]),
{
    lemma_none_missing(JsonModel::Array(items), signature(method), 0);
}

proof fn lemma_none_missing(params: JsonModel, sig: Seq<(Seq<char>, bool)>, i: int)
    requires
        0 <= i,
        forall|j: int| 0 <= j < sig.len() && (#[trigger] sig[j]).1 ==> provided(params, sig[j].0, j) is Some,
    ensures
        first_missing(params, sig, i) is None,
    decreases sig.len() - i,
{
    if i < sig.len() {
        lemma_none_missing(params, sig, i + 1);
    }
}

/// Named params are read by their names, wherever they stand.
pub proof fn named_params_have_their_names(
    params: JsonModel,
    length: i64,
    size: i64,
    offset: i64,
    region: i64,
    threshold: i64,
    x: i64,
    y: i64,
    data_area: i64,
)
    requires
        params is Object,
        1 <= length <= 1440,
        length - 1440 <= offset <= 0,
        threshold >= 0,
        1 <= region <= 7,
        data_area >= 5,
        params.member("minute_length"@) == Some(JsonModel::Int(length as int)),
        params.member("grid_base_length"@) == Some(JsonModel::Int(size as int)),
        params.member("minute_offset"@) == Some(JsonModel::Int(offset as int)),
        params.member("region"@) == Some(JsonModel::Int(region as int)),
        params.member("count_threshold"@) == Some(JsonModel::Int(threshold as int)),
        params.member("x"@) == Some(JsonModel::Int(x as int)),
        params.member("y"@) == Some(JsonModel::Int(y as int)),
        params.member("data_area"@) == Some(JsonModel::Int(data_area as int)),
    ensures
        ({
            let region_grid = GridRequest {
                kind: GridKind::Region { region },
                minute_length: length,
                minute_offset: offset,
                grid_base_length: size,
                count_threshold: threshold,
            };
            &&& meant("get_strikes_grid"@, params) == Some(region_grid)
            &&& meant("get_strikes_raster"@, params) == Some(GridRequest { count_threshold: 0, ..region_grid })
            &&& meant("get_global_strikes_grid"@, params) == Some(GridRequest { kind: GridKind::Global, ..region_grid })
            &&& meant("get_local_strikes_grid"@, params) == Some(
                GridRequest { kind: GridKind::Local { x, y, data_area }, ..region_grid },
            )
        }),
{
    methods_have_their_names("check"@);
    service::arguments_in_range_are_kept(x, y, data_area, region, length, size, offset, threshold);
    service::arguments_in_range_are_kept(x, y, data_area, region, length, size, offset, 0);
    lemma_none_missing(params, signature(Method::StrikesGrid), 0);
    lemma_none_missing(params, signature(Method::StrikesRaster), 0);
    lemma_none_missing(params, signature(Method::GlobalGrid), 0);
    lemma_none_missing(params, signature(Method::LocalGrid), 0);
}

/// A required param that is missing is a fault: the length of a grid, and the
/// tile of a local one.
pub proof fn required_params_are_required(params: JsonModel)
    requires
        params == JsonModel::Array(Seq::empty()) || params == JsonModel::Null || params == JsonModel::Object(
            Seq::empty(),
        ),
    ensures
        arguments(Method::StrikesGrid, params) == Err::<Seq<JsonModel>, ArgFault>(
            ArgFault::MissingRequired("minute_length"@),
        ),
        arguments(Method::GlobalGrid, params) == Err::<Seq<JsonModel>, ArgFault>(
            ArgFault::MissingRequired("minute_length"@),
        ),
        arguments(Method::LocalGrid, params) == Err::<Seq<JsonModel>, ArgFault>(ArgFault::MissingRequired("x"@)),
        arguments(Method::Check, params) == Ok::<Seq<JsonModel>, ArgFault>(Seq::empty()),
{
    assert(Seq::new(0, |i: int| argument(params, Method::Check, i)) =~= Seq::<JsonModel>::empty());
}

/// A result can be read out of its envelope, with the id of the request, in
/// every dialect that has one.
pub proof fn results_are_read_out_of_their_envelopes(id: JsonModel, result: JsonModel)
    ensures
        success(Envelope::Pre1, id, result) == JsonModel::Array(seq![result]),
        success(Envelope::V1, id, result).member("result"@) == Some(result),
        success(Envelope::V1, id, result).member("id"@) == Some(id),
        success(Envelope::V1, id, result).member("error"@) == Some(JsonModel::Null),
        success(Envelope::V1, id, result).member("jsonrpc"@) is None,
        success(Envelope::V2, id, result).member("result"@) == Some(result),
        success(Envelope::V2, id, result).member("id"@) == Some(id),
        success(Envelope::V2, id, result).member("jsonrpc"@) == Some(JsonModel::Text("2.0"@)),
        success(Envelope::V2, id, result).member("error"@) is None,
{
    reveal_strlit("result");
    reveal_strlit("error");
    reveal_strlit("id");
    reveal_strlit("jsonrpc");
    assert("result"@.len() == 6 && "error"@.len() == 5 && "id"@.len() == 2 && "jsonrpc"@.len() == 7);
    reveal_with_fuel(json::field_from, 4);
}

/// A fault can be read out of its envelope: its code, its message and the id of
/// the request.
pub proof fn faults_are_read_out_of_their_envelopes(id: JsonModel, code: int, message: Seq<char>)
    ensures
        fault(Envelope::Pre1, id, code, message).member("faultCode"@) == Some(JsonModel::Int(code)),
        fault(Envelope::Pre1, id, code, message).member("faultString"@) == Some(JsonModel::Text(message)),
        fault(Envelope::V1, id, code, message).member("id"@) == Some(id),
        fault(Envelope::V1, id, code, message).member("result"@) == Some(JsonModel::Null),
        fault(Envelope::V1, id, code, message).member("error"@) matches Some(e) && e.member("faultCode"@) == Some(
            JsonModel::Int(code),
        ) && e.member("faultString"@) == Some(JsonModel::Text(message)),
        fault(Envelope::V2, id, code, message).member("id"@) == Some(id),
        fault(Envelope::V2, id, code, message).member("jsonrpc"@) == Some(JsonModel::Text("2.0"@)),
        fault(Envelope::V2, id, code, message).member("result"@) is None,
        fault(Envelope::V2, id, code, message).member("error"@) matches Some(e) && e.member("code"@) == Some(
            JsonModel::Int(code),
        ) && e.member("message"@) == Some(JsonModel::Text(message)),
{
    reveal_strlit("result");
    reveal_strlit("error");
    reveal_strlit("id");
    reveal_strlit("jsonrpc");
    reveal_strlit("fault");
    reveal_strlit("faultCode");
    reveal_strlit("faultString");
    reveal_strlit("code");
    reveal_strlit("message");
    reveal_strlit("data");
    assert("result"@.len() == 6 && "error"@.len() == 5 && "id"@.len() == 2 && "jsonrpc"@.len() == 7);
    assert("fault"@.len() == 5 && "faultCode"@.len() == 9 && "faultString"@.len() == 11);
    assert("code"@.len() == 4 && "message"@.len() == 7);
    reveal_with_fuel(json::field_from, 4);
}

/// A version field decides the dialect; without one a request with a truthy id
/// gets the first versioned one, any other the bare one.
pub proof fn dialects_follow_the_version_and_the_id(req: JsonModel, version: Option<int>)
    ensures
        req.text_member("jsonrpc"@) is Some && version == Some(2int) ==> dialect(req, version) == Some(Envelope::V2),
        req.text_member("jsonrpc"@) is Some && version is Some && version != Some(2int) ==> dialect(req, version)
            == Some(Envelope::V1),
        req.text_member("jsonrpc"@) is Some && version is None ==> dialect(req, version) is None,
        req.text_member("jsonrpc"@) is None ==> (match req.member("id"@) {
            None | Some(JsonModel::Null) | Some(JsonModel::Bool(false)) => dialect(req, version) == Some(Envelope::Pre1),
            Some(JsonModel::Bool(true)) => dialect(req, version) == Some(Envelope::V1),
            Some(JsonModel::Int(n)) => dialect(req, version) == Some(
                if n == 0 {
                    Envelope::Pre1
                } else {
                    Envelope::V1
                },
            ),
            Some(JsonModel::Text(s)) => dialect(req, version) == Some(
                if s.len() == 0 {
                    Envelope::Pre1
                } else {
                    Envelope::V1
                },
            ),
            Some(JsonModel::Float(f)) => dialect(req, version) == Some(
                if f.bits == 0 || f.bits == 0x8000_0000_0000_0000 {
                    Envelope::Pre1
                } else {
                    Envelope::V1
                },
            ),
            Some(JsonModel::Array(items)) => dialect(req, version) == Some(
                if items.len() == 0 {
                    Envelope::Pre1
                } else {
                    Envelope::V1
                },
            ),
            Some(JsonModel::Object(members)) => dialect(req, version) == Some(
                if members.len() == 0 {
                    Envelope::Pre1
                } else {
                    Envelope::V1
                },
            ),
        }),
{
}

/// The smallest grid of a region or a tile has cells of five kilometres, that
/// of the world of twenty-five; a smaller one is refused.
pub proof fn small_grids_are_refused(request: Request, blocked: Seq<Seq<char>>, method: Method, size: int)
    ensures
        least_length(Method::StrikesGrid) == 5000 && least_length(Method::StrikesRaster) == 5000 && least_length(
            Method::LocalGrid,
        ) == 5000,
        least_length(Method::GlobalGrid) == 25_000,
        size < 5000 || (method == Method::GlobalGrid && size < 25_000) ==> service::refusal(
            blocked,
            request,
            request.client(),
            request.version(),
            size,
            least_length(method),
        ) is Some,
{
}

/// A method is called with the arguments of the request and answers the grid
/// that they mean, when it is allowed; a check answers how often it was called.
pub proof fn requests_get_the_grid_that_they_mean<T>(
    before: Service<T>,
    request: Request,
    method: Method,
    args: Seq<JsonModel>,
)
    ensures
        method == Method::Check ==> answer(before, request, method, args) == Answer::Ready(
            JsonModel::Object(seq![("count"@, JsonModel::Int(before.checks() + 1))]),
        ),
        answer(before, request, method, args) matches Answer::Serve(g) ==> wanted(method, args) == Some(g)
            && service::refusal(
            before.blocked(),
            request,
            request.client(),
            request.version(),
            g.grid_base_length as int,
            least_length(method),
        ) is None,
        method != Method::Check && method != Method::GetStrikes && wanted(method, args) is Some && service::refusal(
            before.blocked(),
            request,
            request.client(),
            request.version(),
            wanted(method, args)->0.grid_base_length as int,
            least_length(method),
        ) is None ==> answer(before, request, method, args) == Answer::Serve(wanted(method, args)->0),
{
}

/// Whether a verdict refuses a request with a code, in the oldest dialect and
/// without its id.
pub open spec fn refuses_blindly(verdict: Verdict, with_code: int) -> bool {
    verdict matches Verdict::Refuse { envelope, id, code, message: _, meta: _ } && envelope == Envelope::Pre1 && id
        == JsonModel::Null && code == with_code
}

/// Whether a verdict refuses a request with a code, in the dialect of the
/// request and with its id.
pub open spec fn refuses_in_kind(verdict: Verdict, dialect: Envelope, request_id: JsonModel, with_code: int) -> bool {
    verdict matches Verdict::Refuse { envelope, id, code, message: _, meta: _ } && envelope == dialect && id == request_id
        && code == with_code
}

/// What is no request is refused with -32600, an unknown method with -32601,
/// params that are neither a list nor an object with -32602, and a call that
/// lacks an argument with 8002; a known method and a missing argument are
/// answered in the dialect of the request and with its id.  Any other request
/// is a call of the method that it names.
pub proof fn refused_requests_get_their_code(
    body: Option<JsonModel>,
    version: Option<int>,
    id_json: Seq<char>,
    params_json: Seq<char>,
)
    ensures
        ({
            let verdict = judged(body, version, id_json, params_json);
            match body {
                Some(req) => {
                    let spoken = dialect(req, version);
                    if !(req is Object) || spoken is None || req.text_member("method"@) is None {
                        refuses_blindly(verdict, -32600)
                    } else {
                        let id = match req.member("id"@) {
                            Some(v) => v,
                            None => JsonModel::Null,
                        };
                        let params = match req.member("params"@) {
                            Some(v) => v,
                            None => JsonModel::Null,
                        };
                        match method_named(req.text_member("method"@)->0) {
                            None => refuses_in_kind(verdict, spoken->0, id, -32601),
                            Some(method) => match arguments(method, params) {
                                Err(ArgFault::InvalidParamsType) => refuses_blindly(verdict, -32602),
                                Err(ArgFault::MissingRequired(_)) => refuses_in_kind(verdict, spoken->0, id, 8002),
                                Ok(values) => verdict matches Verdict::Call { envelope, method: m, args, meta: _ }
                                    && envelope == spoken->0 && m == method && args == values,
                            },
                        }
                    }
                },
                None => refuses_blindly(verdict, -32600),
            }
        }),
{
}

/// A list of params that is short is kept whole; of a longer one the first 160
/// characters are shown, and that there are more.
pub proof fn params_are_summarised(params: JsonModel, json_text: Seq<char>)
    requires
        !(params is Null),
    ensures
        json_text.len() <= 160 ==> params_summary(params, json_text) == json_text,
        json_text.len() > 160 ==> params_summary(params, json_text).len() == 161 && params_summary(
            params,
            json_text,
        ).drop_last() == json_text.subrange(0, 160),
{
    if json_text.len() > 160 {
        assert(params_summary(params, json_text).drop_last() =~= json_text.subrange(0, 160));
    }
}

/// An access line shows, between spaces, the method with its params and how the
/// call ended, the id, the client, its user agent, and the time in milliseconds;
/// what is not there is a hyphen.
pub proof fn access_lines_show_their_parts(meta: MetaModel, request: Request, elapsed: Seq<char>)
    ensures
        ({
            let shown = |o: Option<Seq<char>>|
                match o {
                    Some(s) => s,
                    None => seq!['-'],
                };
            let call = shown(meta.method) + seq!['('] + meta.params + seq![')'];
            let end = match meta.outcome {
                Some(OutcomeModel::Blocked(reason)) => " BLOCKED ("@ + reason + seq![')'],
                Some(OutcomeModel::Fault(code, message)) => " fault "@ + number::signed_decimal(code) + seq![' ']
                    + text::debug_text(message),
                _ => Seq::empty(),
            };
            access_text(meta, request, elapsed) == text::join(
                seq![
                    call + end,
                    "id="@ + meta.id,
                    "client="@ + shown(request.client()),
                    "ua="@ + shown(text::opt_text(request.user_agent)),
                    elapsed + "ms"@,
                ],
                seq![' '],
            )
        }),
{
    let space = seq![' '];
    reveal_strlit("-");
    reveal_strlit("(");
    reveal_strlit(")");
    reveal_strlit(" ");
    reveal_strlit("");
    assert("-"@ =~= seq!['-']);
    assert("("@ =~= seq!['(']);
    assert(")"@ =~= seq![')']);
    assert(" "@ =~= space);
    assert(""@ =~= Seq::<char>::empty());
    lemma_access_words();
    let a = or_hyphen(meta.method) + "("@ + meta.params + ")"@ + outcome_mark(meta.outcome);
    let client = or_hyphen(request.client());
    let agent = or_hyphen(text::opt_text(request.user_agent));
    let i0 = seq![a];
    let i1 = i0.push("id="@ + meta.id);
    let i2 = i1.push("client="@ + client);
    let i3 = i2.push("ua="@ + agent);
    let i4 = i3.push(elapsed + "ms"@);
    text::lemma_join_push(i0, "id="@ + meta.id, space);
    text::lemma_join_push(i1, "client="@ + client, space);
    text::lemma_join_push(i2, "ua="@ + agent, space);
    text::lemma_join_push(i3, elapsed + "ms"@, space);
    assert(text::join(i0, space) == a);
    let t1 = a + space + ("id="@ + meta.id);
    assert(t1 =~= a + (space + "id="@) + meta.id);
    let t2 = t1 + space + ("client="@ + client);
    assert(t2 =~= t1 + (space + "client="@) + client);
    let t3 = t2 + space + ("ua="@ + agent);
    assert(t3 =~= t2 + (space + "ua="@) + agent);
    assert(t3 + space + (elapsed + "ms"@) =~= t3 + space + elapsed + "ms"@);
    assert(i4 =~= seq![a, "id="@ + meta.id, "client="@ + client, "ua="@ + agent, elapsed + "ms"@]);
}

proof fn lemma_access_words()
    ensures
        " id="@ == seq![' '] + "id="@,
        " client="@ == seq![' '] + "client="@,
        " ua="@ == seq![' '] + "ua="@,
{
    reveal_strlit(" id=");
    reveal_strlit("id=");
    reveal_strlit(" client=");
    reveal_strlit("client=");
    reveal_strlit(" ua=");
    reveal_strlit("ua=");
    assert(" id="@ =~= seq![' '] + "id="@);
    assert(" client="@ =~= seq![' '] + "client="@);
    assert(" ua="@ =~= seq![' '] + "ua="@);
}

} // verus!
