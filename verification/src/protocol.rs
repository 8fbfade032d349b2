//! The JSON-RPC protocol through which tools are listed and called.

use vstd::prelude::*;
use vstd::string::*;
use crate::call;
use crate::call::reading;
use crate::denial::Denial;
use crate::engine::EngineModel;
use crate::ids;
use crate::ids::contains_text;
use crate::json;
use crate::json::{field, list_of, object_of, text, text_list, Json, JsonModel};
use crate::show;
use crate::text::same;

verus! {

/// The tools, in the order in which they are listed.
pub open spec fn tool_names() -> Seq<Seq<char>> {
    seq![
        "runtime.status"@,
        "runtime.request"@,
        "runtime.release"@,
        "services.list"@,
        "services.get"@,
        "services.start"@,
        "services.stop"@,
        "services.restart"@,
        "jobs.list"@,
        "jobs.get"@,
        "runtime.cleanup"@,
    ]
}

/// The tools that take a service.
pub open spec fn takes_service(name: Seq<char>) -> bool {
    ||| name == "services.get"@
    ||| name == "services.start"@
    ||| name == "services.stop"@
    ||| name == "services.restart"@
}

fn of_service(name: &str) -> (r: bool)
    ensures
        r == takes_service(name@),
{
    same(name, "services.get") || same(name, "services.start") || same(name, "services.stop")
        || same(name, "services.restart")
}

/// A property that is a text.
pub open spec fn text_property() -> JsonModel {
    show::object(seq![("type"@, JsonModel::Text("string"@))])
}

/// A property that is a text of 1 to 128 characters.
pub open spec fn name_property() -> JsonModel {
    show::object(
        seq![
            ("type"@, JsonModel::Text("string"@)),
            ("minLength"@, JsonModel::Integer(1)),
            ("maxLength"@, JsonModel::Integer(128)),
        ],
    )
}

/// A property that is a list of at least one text.
pub open spec fn list_property() -> JsonModel {
    show::object(
        seq![
            ("type"@, JsonModel::Text("array"@)),
            ("items"@, text_property()),
            ("minItems"@, JsonModel::Integer(1)),
        ],
    )
}

/// A property that is a count of bytes.
pub open spec fn bytes_property() -> JsonModel {
    show::object(
        seq![
            ("type"@, JsonModel::Text("integer"@)),
            ("minimum"@, JsonModel::Integer(0)),
            (
                "description"@,
                JsonModel::Text(
                    "Additional job memory beyond service startup estimates, in bytes"@,
                ),
            ),
        ],
    )
}

/// The arguments that a tool takes.
pub open spec fn properties(name: Seq<char>) -> show::Fields {
    if name == "runtime.request"@ {
        seq![
            ("job_id"@, name_property()),
            ("agent"@, name_property()),
            ("requires"@, list_property()),
            ("memory_bytes"@, bytes_property()),
        ]
    } else if name == "runtime.release"@ {
        seq![("runtime_id"@, text_property())]
    } else if takes_service(name) {
        seq![("service_id"@, text_property())]
    } else if name == "jobs.get"@ {
        seq![("job_id"@, text_property())]
    } else {
        Seq::empty()
    }
}

/// The arguments that a tool has to be given.
pub open spec fn needed_arguments(name: Seq<char>) -> Seq<Seq<char>> {
    if name == "runtime.request"@ {
        seq!["job_id"@, "agent"@, "requires"@]
    } else if name == "runtime.release"@ {
        seq!["runtime_id"@]
    } else if takes_service(name) {
        seq!["service_id"@]
    } else if name == "jobs.get"@ {
        seq!["job_id"@]
    } else {
        Seq::empty()
    }
}

pub open spec fn description(name: Seq<char>) -> Seq<char> {
    if name == "runtime.request"@ {
        "Acquire a runtime lease. Returns READY, BLOCKED_RESOURCE or BLOCKED_SERVICE; never evicts work. Same job_id and request are idempotent."@
    } else if name == "runtime.release"@ {
        "Release a runtime lease. Does not stop shared services."@
    } else if takes_service(name) {
        "Inspect or control a configured service. Controls require managed ownership, allowed action, and no leases."@
    } else if name == "jobs.get"@ {
        "Read one job and its runtime lease."@
    } else if name == "runtime.cleanup"@ {
        "Stop only daemon-owned disposable services with no leases and allowed stop action."@
    } else {
        "Read the current workstation registry and resource snapshot."@
    }
}

pub open spec fn schema_fields(name: Seq<char>) -> show::Fields {
    seq![
        ("type"@, JsonModel::Text("object"@)),
        ("properties"@, show::object(properties(name))),
        ("required"@, JsonModel::List(json::texts_model(needed_arguments(name)))),
        ("additionalProperties"@, JsonModel::Bool(false)),
    ]
}

pub open spec fn annotation_fields(name: Seq<char>) -> show::Fields {
    seq![
        ("readOnlyHint"@, JsonModel::Bool(call::is_reading(name))),
        ("openWorldHint"@, JsonModel::Bool(false)),
    ]
}

pub open spec fn tool_fields(name: Seq<char>) -> show::Fields {
    seq![
        ("name"@, JsonModel::Text(name)),
        ("description"@, JsonModel::Text(description(name))),
        ("inputSchema"@, show::object(schema_fields(name))),
        ("annotations"@, show::object(annotation_fields(name))),
    ]
}

/// The catalogue of the tools.
pub open spec fn catalogue() -> JsonModel {
    JsonModel::List(tool_names().map_values(|name: Seq<char>| show::object(tool_fields(name))))
}

fn show_text_property() -> (j: Json)
    ensures
        j@ == text_property(),
{
    let f = vec![field("type", text("string"))];
    assert(json::fields(f@) =~= seq![("type"@, JsonModel::Text("string"@))]);
    object_of(f)
}

fn show_name_property() -> (j: Json)
    ensures
        j@ == name_property(),
{
    let f = vec![
        field("type", text("string")),
        field("minLength", Json::UInt(1)),
        field("maxLength", Json::UInt(128)),
    ];
    assert(json::fields(f@) =~= seq![
        ("type"@, JsonModel::Text("string"@)),
        ("minLength"@, JsonModel::Integer(1)),
        ("maxLength"@, JsonModel::Integer(128)),
    ]);
    object_of(f)
}

fn show_list_property() -> (j: Json)
    ensures
        j@ == list_property(),
{
    let f = vec![
        field("type", text("array")),
        field("items", show_text_property()),
        field("minItems", Json::UInt(1)),
    ];
    assert(json::fields(f@) =~= seq![
        ("type"@, JsonModel::Text("array"@)),
        ("items"@, text_property()),
        ("minItems"@, JsonModel::Integer(1)),
    ]);
    object_of(f)
}

fn show_bytes_property() -> (j: Json)
    ensures
        j@ == bytes_property(),
{
    let f = vec![
        field("type", text("integer")),
        field("minimum", Json::UInt(0)),
        field(
            "description",
            text("Additional job memory beyond service startup estimates, in bytes"),
        ),
    ];
    assert(json::fields(f@) =~= seq![
        ("type"@, JsonModel::Text("integer"@)),
        ("minimum"@, JsonModel::Integer(0)),
        (
            "description"@,
            JsonModel::Text("Additional job memory beyond service startup estimates, in bytes"@),
        ),
    ]);
    object_of(f)
}

fn properties_of(name: &str) -> (f: Vec<(String, Json)>)
    ensures
        json::fields(f@) == properties(name@),
{
    let f: Vec<(String, Json)> = if same(name, "runtime.request") {
        vec![
            field("job_id", show_name_property()),
            field("agent", show_name_property()),
            field("requires", show_list_property()),
            field("memory_bytes", show_bytes_property()),
        ]
    } else if same(name, "runtime.release") {
        vec![field("runtime_id", show_text_property())]
    } else if of_service(name) {
        vec![field("service_id", show_text_property())]
    } else if same(name, "jobs.get") {
        vec![field("job_id", show_text_property())]
    } else {
        Vec::new()
    };
    assert(json::fields(f@) =~= properties(name@));
    f
}

fn needed_by(name: &str) -> (r: Vec<String>)
    ensures
        ids::texts(r@) == needed_arguments(name@),
{
    let r: Vec<String> = if same(name, "runtime.request") {
        vec!["job_id".to_string(), "agent".to_string(), "requires".to_string()]
    } else if same(name, "runtime.release") {
        vec!["runtime_id".to_string()]
    } else if of_service(name) {
        vec!["service_id".to_string()]
    } else if same(name, "jobs.get") {
        vec!["job_id".to_string()]
    } else {
        Vec::new()
    };
    assert(ids::texts(r@) =~= needed_arguments(name@));
    r
}

fn description_of(name: &str) -> (s: &'static str)
    ensures
        s@ == description(name@),
{
    if same(name, "runtime.request") {
        "Acquire a runtime lease. Returns READY, BLOCKED_RESOURCE or BLOCKED_SERVICE; never evicts work. Same job_id and request are idempotent."
    } else if same(name, "runtime.release") {
        "Release a runtime lease. Does not stop shared services."
    } else if of_service(name) {
        "Inspect or control a configured service. Controls require managed ownership, allowed action, and no leases."
    } else if same(name, "jobs.get") {
        "Read one job and its runtime lease."
    } else if same(name, "runtime.cleanup") {
        "Stop only daemon-owned disposable services with no leases and allowed stop action."
    } else {
        "Read the current workstation registry and resource snapshot."
    }
}

fn show_tool(name: &str) -> (j: Json)
    ensures
        j@ == show::object(tool_fields(name@)),
{
    let schema = vec![
        field("type", text("object")),
        field("properties", object_of(properties_of(name))),
        field("required", text_list(&needed_by(name))),
        field("additionalProperties", Json::Bool(false)),
    ];
    assert(json::fields(schema@) =~= schema_fields(name@));
    let notes = vec![
        field("readOnlyHint", Json::Bool(reading(name))),
        field("openWorldHint", Json::Bool(false)),
    ];
    assert(json::fields(notes@) =~= annotation_fields(name@));
    let f = vec![
        field("name", text(name)),
        field("description", text(description_of(name))),
        field("inputSchema", object_of(schema)),
        field("annotations", object_of(notes)),
    ];
    assert(json::fields(f@) =~= tool_fields(name@));
    object_of(f)
}

fn names() -> (r: Vec<String>)
    ensures
        ids::texts(r@) == tool_names(),
{
    let r = vec![
        "runtime.status".to_string(),
        "runtime.request".to_string(),
        "runtime.release".to_string(),
        "services.list".to_string(),
        "services.get".to_string(),
        "services.start".to_string(),
        "services.stop".to_string(),
        "services.restart".to_string(),
        "jobs.list".to_string(),
        "jobs.get".to_string(),
        "runtime.cleanup".to_string(),
    ];
    assert(ids::texts(r@) =~= tool_names());
    r
}

/// The catalogue of the tools.
pub fn tools() -> (j: Json)
    ensures
        j@ == catalogue(),
{
    let all = names();
    let ghost want = tool_names().map_values(|name: Seq<char>| show::object(tool_fields(name)));
    let mut out: Vec<Json> = Vec::new();
    let mut i: usize = 0;
    while i < all.len()
        invariant
            i <= all@.len(),
            out@.len() == i,
            ids::texts(all@) == tool_names(),
            want == tool_names().map_values(|name: Seq<char>| show::object(tool_fields(name))),
            json::models(out@) == want.take(i as int),
        decreases all@.len() - i,
    {
        assert(ids::texts(all@)[i as int] == all@[i as int]@);
        out.push(show_tool(all[i].as_str()));
        assert(json::models(out@) =~= want.take(i + 1));
        i += 1;
    }
    assert(ids::texts(all@).len() == all@.len());
    assert(json::models(out@) =~= want);
    list_of(out)
}

pub open spec fn error_fields(id: JsonModel, code: int, message: Seq<char>) -> show::Fields {
    seq![
        ("jsonrpc"@, JsonModel::Text("2.0"@)),
        ("id"@, id),
        (
            "error"@,
            show::object(
                seq![("code"@, JsonModel::Integer(code)), ("message"@, JsonModel::Text(message))],
            ),
        ),
    ]
}

/// An error answer.
pub open spec fn error_reply(id: JsonModel, code: int, message: Seq<char>) -> JsonModel {
    show::object(error_fields(id, code, message))
}

pub fn error(id: Json, code: i32, message: &str) -> (j: Json)
    ensures
        j@ == error_reply(id@, code as int, message@),
{
    let e = vec![field("code", Json::Int(code as i64)), field("message", text(message))];
    assert(json::fields(e@) =~= seq![
        ("code"@, JsonModel::Integer(code as int)),
        ("message"@, JsonModel::Text(message@)),
    ]);
    let f = vec![field("jsonrpc", text("2.0")), field("id", id), field("error", object_of(e))];
    assert(json::fields(f@) =~= error_fields(id@, code as int, message@));
    object_of(f)
}

/// A good answer.
pub open spec fn result_reply(id: JsonModel, result: JsonModel) -> JsonModel {
    show::object(seq![("jsonrpc"@, JsonModel::Text("2.0"@)), ("id"@, id), ("result"@, result)])
}

fn answer(id: Json, result: Json) -> (j: Json)
    ensures
        j@ == result_reply(id@, result@),
{
    let f = vec![field("jsonrpc", text("2.0")), field("id", id), field("result", result)];
    assert(json::fields(f@) =~= seq![
        ("jsonrpc"@, JsonModel::Text("2.0"@)),
        ("id"@, id@),
        ("result"@, result@),
    ]);
    object_of(f)
}

/// The field of that name; null where there is none.
pub open spec fn at(v: JsonModel, key: Seq<char>) -> JsonModel {
    if json::as_map(v).contains_key(key) {
        json::as_map(v)[key]
    } else {
        JsonModel::Null
    }
}

/// The version that is spoken with a client that asks for `asked`.
pub open spec fn spoken_version(asked: JsonModel) -> Seq<char> {
    if asked == JsonModel::Text("2024-11-05"@) {
        "2024-11-05"@
    } else if asked == JsonModel::Text("2025-11-25"@) {
        "2025-11-25"@
    } else {
        "2025-06-18"@
    }
}

pub open spec fn initialize_fields(asked: JsonModel) -> show::Fields {
    seq![
        ("protocolVersion"@, JsonModel::Text(spoken_version(asked))),
        (
            "capabilities"@,
            show::object(
                seq![("tools"@, show::object(seq![("listChanged"@, JsonModel::Bool(false))]))],
            ),
        ),
        (
            "serverInfo"@,
            show::object(
                seq![
                    ("name"@, JsonModel::Text("runtime-gatekeeper"@)),
                    ("version"@, JsonModel::Text("0.1.0"@)),
                ],
            ),
        ),
        (
            "instructions"@,
            JsonModel::Text(
                "Use runtime.request once per job and runtime.release on completion. Report BLOCKED_RESOURCE to the human. Never evict other work."@,
            ),
        ),
    ]
}

fn initialize(asked: Option<&Json>) -> (j: Json)
    ensures
        j@ == show::object(
            initialize_fields(
                match asked {
                    Some(v) => v@,
                    None => JsonModel::Null,
                },
            ),
        ),
{
    let ghost want = match asked {
        Some(v) => v@,
        None => JsonModel::Null,
    };
    let said: Option<&String> = match asked {
        Some(v) => v.as_text(),
        None => None,
    };
    let version: &str = match said {
        Some(s) => if same(s.as_str(), "2024-11-05") {
            "2024-11-05"
        } else if same(s.as_str(), "2025-11-25") {
            "2025-11-25"
        } else {
            "2025-06-18"
        },
        None => "2025-06-18",
    };
    assert(version@ == spoken_version(want));
    let listing = vec![field("listChanged", Json::Bool(false))];
    assert(json::fields(listing@) =~= seq![("listChanged"@, JsonModel::Bool(false))]);
    let able = vec![field("tools", object_of(listing))];
    assert(json::fields(able@) =~= seq![
        ("tools"@, show::object(seq![("listChanged"@, JsonModel::Bool(false))])),
    ]);
    let server = vec![field("name", text("runtime-gatekeeper")), field("version", text("0.1.0"))];
    assert(json::fields(server@) =~= seq![
        ("name"@, JsonModel::Text("runtime-gatekeeper"@)),
        ("version"@, JsonModel::Text("0.1.0"@)),
    ]);
    let f = vec![
        field("protocolVersion", text(version)),
        field("capabilities", object_of(able)),
        field("serverInfo", object_of(server)),
        field(
            "instructions",
            text(
                "Use runtime.request once per job and runtime.release on completion. Report BLOCKED_RESOURCE to the human. Never evict other work.",
            ),
        ),
    ];
    assert(json::fields(f@) =~= initialize_fields(want));
    object_of(f)
}

/// What comes of a message: nothing is said, an answer is given at once, or a
/// tool is called and the answer follows.
#[derive(Debug, PartialEq)]
pub enum Rpc<T, J> {
    Silent,
    Answer(J),
    Call { id: J, name: T, args: J },
}

pub type RpcModel = Rpc<Seq<char>, JsonModel>;

impl View for Rpc<String, Json> {
    type V = Rpc<Seq<char>, JsonModel>;

    open spec fn view(&self) -> Rpc<Seq<char>, JsonModel> {
        match self {
            Rpc::Silent => Rpc::Silent,
            Rpc::Answer(j) => Rpc::Answer(j@),
            Rpc::Call { id, name, args } => Rpc::Call { id: id@, name: name@, args: args@ },
        }
    }
}

/// The arguments are an object that has all that the tool needs and nothing that
/// it does not take.
pub open spec fn are_arguments(name: Seq<char>, args: JsonModel) -> bool {
    &&& args is Object
    &&& forall|k: Seq<char>| #[trigger]
        args->Object_0.contains_key(k) ==> ids::keys(properties(name)).contains(k)
    &&& forall|i: int|
        0 <= i < needed_arguments(name).len() ==> args->Object_0.contains_key(
            #[trigger] needed_arguments(name)[i],
        )
}

/// The arguments of a call; none are as good as an empty object.
pub open spec fn given_arguments(params: JsonModel) -> JsonModel {
    if json::as_map(params).contains_key("arguments"@) {
        json::as_map(params)["arguments"@]
    } else {
        JsonModel::Object(Map::empty())
    }
}

/// What comes of a call of a tool.
pub open spec fn rpc_tool(id: JsonModel, params: JsonModel) -> RpcModel {
    let name = match at(params, "name"@) {
        JsonModel::Text(s) => s,
        _ => Seq::empty(),
    };
    let args = given_arguments(params);
    if !tool_names().contains(name) {
        Rpc::Answer(error_reply(id, -32602, "Unknown tool"@))
    } else if !are_arguments(name, args) {
        Rpc::Answer(error_reply(id, -32602, "Invalid tool arguments"@))
    } else {
        Rpc::Call { id, name, args }
    }
}

/// What comes of a message.
pub open spec fn rpc_first(v: JsonModel) -> RpcModel {
    if at(v, "jsonrpc"@) != JsonModel::Text("2.0"@) || !(at(v, "method"@) is Text) {
        Rpc::Answer(error_reply(at(v, "id"@), -32600, "Invalid Request"@))
    } else if !json::as_map(v).contains_key("id"@) {
        Rpc::Silent
    } else {
        let id = at(v, "id"@);
        let method = at(v, "method"@)->Text_0;
        if method == "initialize"@ {
            Rpc::Answer(
                result_reply(
                    id,
                    show::object(
                        initialize_fields(at(at(v, "params"@), "protocolVersion"@)),
                    ),
                ),
            )
        } else if method == "ping"@ {
            Rpc::Answer(result_reply(id, JsonModel::Object(Map::empty())))
        } else if method == "tools/list"@ {
            Rpc::Answer(result_reply(id, show::object(seq![("tools"@, catalogue())])))
        } else if method == "tools/call"@ {
            rpc_tool(id, at(v, "params"@))
        } else {
            Rpc::Answer(error_reply(id, -32601, "Method not found"@))
        }
    }
}

fn empty_object() -> (j: Json)
    ensures
        j@ == JsonModel::Object(Map::empty()),
{
    let f: Vec<(String, Json)> = Vec::new();
    assert(json::fields(f@) =~= Seq::<(Seq<char>, JsonModel)>::empty());
    object_of(f)
}

fn has_key(f: &Vec<(String, Json)>, key: &str) -> (r: bool)
    ensures
        r == ids::keys(json::fields(f@)).contains(key@),
{
    let ghost k = ids::keys(json::fields(f@));
    let mut i: usize = 0;
    while i < f.len()
        invariant
            i <= f@.len(),
            k == ids::keys(json::fields(f@)),
            forall|j: int| 0 <= j < i ==> #[trigger] k[j] != key@,
        decreases f@.len() - i,
    {
        assert(k[i as int] == f@[i as int].0@);
        if same(f[i].0.as_str(), key) {
            return true;
        }
        i += 1;
    }
    false
}

/// Whether the arguments are ones that the tool takes.
pub fn accepts(name: &str, args: &Json) -> (r: bool)
    ensures
        r == are_arguments(name@, args@),
{
    broadcast use json::lemma_view;

    let items = match args {
        Json::Object(items) => items,
        _ => {
            return false;
        },
    };
    let ghost m = args@->Object_0;
    let ghost f = json::fields(items@);
    let known = properties_of(name);
    proof {
        json::lemma_object(f);
    }
    let mut i: usize = 0;
    while i < items.len()
        invariant
            i <= items@.len(),
            f == json::fields(items@),
            args@ == JsonModel::Object(m),
            m == json::object(f),
            json::fields(known@) == properties(name@),
            forall|k: Seq<char>| #[trigger]
                json::object(f).contains_key(k) <==> exists|i: int| 0 <= i < f.len() && f[i].0 == k,
            forall|j: int|
                0 <= j < i ==> ids::keys(properties(name@)).contains((#[trigger] f[j]).0),
        decreases items@.len() - i,
    {
        assert(f[i as int].0 == items@[i as int].0@);
        if !has_key(&known, items[i].0.as_str()) {
            assert(!ids::keys(properties(name@)).contains(f[i as int].0));
            assert(m.contains_key(f[i as int].0)) by {
                assert(exists|x: int| 0 <= x < f.len() && f[x].0 == f[i as int].0);
            }
            assert(args@->Object_0.contains_key(f[i as int].0));
            return false;
        }
        i += 1;
    }
    let needed = needed_by(name);
    let mut j: usize = 0;
    while j < needed.len()
        invariant
            j <= needed@.len(),
            args@ == JsonModel::Object(m),
            ids::texts(needed@) == needed_arguments(name@),
            forall|k: int| 0 <= k < j ==> m.contains_key(#[trigger] needed_arguments(name@)[k]),
        decreases needed@.len() - j,
    {
        assert(needed_arguments(name@)[j as int] == needed@[j as int]@);
        if args.get(needed[j].as_str()).is_none() {
            assert(!m.contains_key(needed_arguments(name@)[j as int]));
            return false;
        }
        j += 1;
    }
    assert(ids::texts(needed@).len() == needed@.len());
    true
}

fn call_tool(id: Json, params: Option<&Json>) -> (r: Rpc<String, Json>)
    ensures
        r@ == rpc_tool(
            id@,
            match params {
                Some(p) => p@,
                None => JsonModel::Null,
            },
        ),
{
    let ghost p = match params {
        Some(p) => p@,
        None => JsonModel::Null,
    };
    let named: Option<&Json> = match params {
        Some(p) => p.get("name"),
        None => None,
    };
    let name: String = match named {
        Some(v) => match v.as_text() {
            Some(s) => s.clone(),
            None => String::new(),
        },
        None => String::new(),
    };
    let given: Option<&Json> = match params {
        Some(p) => p.get("arguments"),
        None => None,
    };
    let args: Json = match given {
        Some(v) => v.copy(),
        None => empty_object(),
    };
    assert(args@ == given_arguments(p));
    if !contains_text(&names(), name.as_str()) {
        return Rpc::Answer(error(id, -32602, "Unknown tool"));
    }
    if !accepts(name.as_str(), &args) {
        return Rpc::Answer(error(id, -32602, "Invalid tool arguments"));
    }
    Rpc::Call { id, name, args }
}

/// Takes up a message.
pub fn rpc(v: &Json) -> (r: Rpc<String, Json>)
    ensures
        r@ == rpc_first(v@),
{
    let id: Option<Json> = match v.get("id") {
        Some(j) => Some(j.copy()),
        None => None,
    };
    let spoken = match v.get("jsonrpc") {
        Some(j) => match j.as_text() {
            Some(s) => same(s.as_str(), "2.0"),
            None => false,
        },
        None => false,
    };
    let method: Option<&String> = match v.get("method") {
        Some(j) => j.as_text(),
        None => None,
    };
    assert(spoken == (at(v@, "jsonrpc"@) == JsonModel::Text("2.0"@)));
    let method: &String = match (spoken, method) {
        (true, Some(m)) => m,
        _ => {
            let id: Json = match id {
                Some(j) => j,
                None => Json::Null,
            };
            return Rpc::Answer(error(id, -32600, "Invalid Request"));
        },
    };
    let id: Json = match id {
        Some(j) => j,
        None => {
            return Rpc::Silent;
        },
    };
    let params: Option<&Json> = v.get("params");
    if same(method.as_str(), "initialize") {
        let asked: Option<&Json> = match params {
            Some(p) => p.get("protocolVersion"),
            None => None,
        };
        Rpc::Answer(answer(id, initialize(asked)))
    } else if same(method.as_str(), "ping") {
        Rpc::Answer(answer(id, empty_object()))
    } else if same(method.as_str(), "tools/list") {
        let f = vec![field("tools", tools())];
        assert(json::fields(f@) =~= seq![("tools"@, catalogue())]);
        Rpc::Answer(answer(id, object_of(f)))
    } else if same(method.as_str(), "tools/call") {
        call_tool(id, params)
    } else {
        Rpc::Answer(error(id, -32601, "Method not found"))
    }
}

/// One piece of text content.
pub open spec fn content(s: Seq<char>) -> JsonModel {
    JsonModel::List(
        seq![
            show::object(seq![("type"@, JsonModel::Text("text"@)), ("text"@, JsonModel::Text(s))]),
        ],
    )
}

/// What a call of a tool came to, for the client.
pub open spec fn tool_result(r: Result<JsonModel, Denial<Seq<char>>>) -> JsonModel {
    match r {
        Ok(v) => show::object(
            seq![
                ("content"@, content(json::written(v))),
                ("structuredContent"@, v),
                ("isError"@, JsonModel::Bool(false)),
            ],
        ),
        Err(d) => show::object(
            seq![("content"@, content(d.text())), ("isError"@, JsonModel::Bool(true))],
        ),
    }
}

fn show_content(s: String) -> (j: Json)
    ensures
        j@ == content(s@),
{
    let piece = vec![field("type", text("text")), field("text", Json::Text(s))];
    assert(json::fields(piece@) =~= seq![
        ("type"@, JsonModel::Text("text"@)),
        ("text"@, JsonModel::Text(s@)),
    ]);
    let all = vec![object_of(piece)];
    assert(json::models(all@) =~= seq![
        show::object(seq![("type"@, JsonModel::Text("text"@)), ("text"@, JsonModel::Text(s@))]),
    ]);
    list_of(all)
}

/// The answer to a call of a tool, once it is over.
pub fn called(id: Json, r: Result<Json, Denial<String>>) -> (j: Json)
    ensures
        j@ == result_reply(
            id@,
            tool_result(
                match r {
                    Ok(v) => Ok(v@),
                    Err(d) => Err(d@),
                },
            ),
        ),
{
    match r {
        Ok(v) => {
            let said: String = v.copy().write();
            let f = vec![
                field("content", show_content(said)),
                field("structuredContent", v),
                field("isError", Json::Bool(false)),
            ];
            assert(json::fields(f@) =~= seq![
                ("content"@, content(json::written(v@))),
                ("structuredContent"@, v@),
                ("isError"@, JsonModel::Bool(false)),
            ]);
            answer(id, object_of(f))
        },
        Err(d) => {
            let f = vec![
                field("content", show_content(d.message())),
                field("isError", Json::Bool(true)),
            ];
            assert(json::fields(f@) =~= seq![
                ("content"@, content(d@.text())),
                ("isError"@, JsonModel::Bool(true)),
            ]);
            answer(id, object_of(f))
        },
    }
}

/// What comes of a message that arrives as bytes: bytes that are not JSON get a
/// parse error.
pub open spec fn rpc_bytes(v: Option<JsonModel>) -> RpcModel {
    match v {
        Some(v) => rpc_first(v),
        None => Rpc::Answer(error_reply(JsonModel::Null, -32700, "Parse error"@)),
    }
}

/// Takes up a message that has been read, or could not be.
pub fn rpc_read(v: Option<Json>) -> (r: Rpc<String, Json>)
    ensures
        r@ == rpc_bytes(
            match v {
                Some(v) => Some(v@),
                None => None,
            },
        ),
{
    match v {
        Some(v) => rpc(&v),
        None => Rpc::Answer(error(Json::Null, -32700, "Parse error")),
    }
}

/// Takes up a message from its bytes.
pub fn rpc_body(bytes: &[u8]) -> (r: Rpc<String, Json>)
    ensures
        r@ == rpc_bytes(json::parsed(bytes@)),
{
    rpc_read(Json::read(bytes))
}

/// A message without an id gets no answer and calls nothing, unless it is no
/// request at all; every answer carries the id of its message.
pub proof fn law_notifications_are_silent(v: JsonModel)
    ensures
        rpc_first(v) is Silent <==> at(v, "jsonrpc"@) == JsonModel::Text("2.0"@) && at(
            v,
            "method"@,
        ) is Text && !json::as_map(v).contains_key("id"@),
        rpc_first(v) matches Rpc::Call { id, name, args } ==> json::as_map(v).contains_key("id"@)
            && id == at(v, "id"@) && tool_names().contains(name) && are_arguments(name, args),
{
}

/// The catalogue and the calls agree: a tool that is listed is known, and a tool
/// that is known is listed.
pub proof fn law_catalogue_is_what_can_be_called(
    e: EngineModel,
    name: Seq<char>,
    args: JsonModel,
    fresh: Seq<char>,
)
    requires
        !e.storage_failed,
    ensures
        tool_names().contains(name) <==> call::call_first(e, name, args, fresh).1
            != call::CallProgress::Over(Err(Denial::UnknownTool(name))),
{
    let t = tool_names();
    assert(t[0] == "runtime.status"@ && t[1] == "runtime.request"@ && t[2] == "runtime.release"@
        && t[3] == "services.list"@ && t[4] == "services.get"@ && t[5] == "services.start"@ && t[6]
        == "services.stop"@ && t[7] == "services.restart"@ && t[8] == "jobs.list"@ && t[9]
        == "jobs.get"@ && t[10] == "runtime.cleanup"@);
    if !t.contains(name) {
        assert(forall|i: int| 0 <= i < 11 ==> t[i] != name);
    }
}

/// What a tool has to be given is among what it takes.
pub proof fn law_needed_arguments_are_taken(name: Seq<char>, i: int)
    requires
        0 <= i < needed_arguments(name).len(),
    ensures
        ids::keys(properties(name)).contains(needed_arguments(name)[i]),
{
    let k = ids::keys(properties(name));
    assert(k[i] == needed_arguments(name)[i]);
}

/// An answer says what protocol it is of, carries the id of the message, and has
/// either a result or an error with its code and message.
pub proof fn law_answers_carry_their_id(
    id: JsonModel,
    result: JsonModel,
    code: int,
    message: Seq<char>,
)
    ensures
        ({
            let good = json::as_map(result_reply(id, result));
            let bad = json::as_map(error_reply(id, code, message));
            &&& good.contains_pair("jsonrpc"@, JsonModel::Text("2.0"@))
            &&& good.contains_pair("id"@, id)
            &&& good.contains_pair("result"@, result)
            &&& !good.contains_key("error"@)
            &&& bad.contains_pair("jsonrpc"@, JsonModel::Text("2.0"@))
            &&& bad.contains_pair("id"@, id)
            &&& !bad.contains_key("result"@)
            &&& bad.contains_key("error"@)
            &&& json::as_map(bad["error"@]).contains_pair("code"@, JsonModel::Integer(code))
            &&& json::as_map(bad["error"@]).contains_pair("message"@, JsonModel::Text(message))
        }),
{
    reveal_strlit("jsonrpc");
    reveal_strlit("id");
    reveal_strlit("result");
    reveal_strlit("error");
    reveal_strlit("code");
    reveal_strlit("message");
    assert("jsonrpc"@[0] != "message"@[0]);
    let f = seq![("jsonrpc"@, JsonModel::Text("2.0"@)), ("id"@, id), ("result"@, result)];
    assert(f[0].0.len() == 7 && f[1].0.len() == 2 && f[2].0.len() == 6);
    assert(json::distinct(f));
    json::lemma_object(f);
    assert(json::object(f).contains_pair(f[0].0, f[0].1));
    assert(json::object(f).contains_pair(f[1].0, f[1].1));
    assert(json::object(f).contains_pair(f[2].0, f[2].1));
    assert("error"@.len() == 5);
    let g = error_fields(id, code, message);
    assert(g[0].0.len() == 7 && g[1].0.len() == 2 && g[2].0.len() == 5);
    assert(json::distinct(g));
    json::lemma_object(g);
    assert(json::object(g).contains_pair(g[0].0, g[0].1));
    assert(json::object(g).contains_pair(g[1].0, g[1].1));
    assert(json::object(g).contains_pair(g[2].0, g[2].1));
    let h = seq![("code"@, JsonModel::Integer(code)), ("message"@, JsonModel::Text(message))];
    assert(h[0].0.len() == 4 && h[1].0.len() == 7);
    assert(json::distinct(h));
    json::lemma_object(h);
    assert(json::object(h).contains_pair(h[0].0, h[0].1));
    assert(json::object(h).contains_pair(h[1].0, h[1].1));
}

/// What is no request, for want of the protocol's name or of a method, is answered
/// as such, with its id or none. A request without an id is not answered. A ping is
/// answered with nothing, a method that is not known with an error, and a client
/// that greets with the version that it asked for, if that is spoken.
pub proof fn law_messages_go_by_their_method(v: JsonModel, m: Map<Seq<char>, JsonModel>, method: Seq<char>)
    requires
        v == JsonModel::Object(m),
    ensures
        ({
            let id = if m.contains_key("id"@) {
                m["id"@]
            } else {
                JsonModel::Null
            };
            let spoken = m.contains_pair("jsonrpc"@, JsonModel::Text("2.0"@));
            let asks = m.contains_pair("method"@, JsonModel::Text(method));
            let params = if m.contains_key("params"@) {
                m["params"@]
            } else {
                JsonModel::Null
            };
            &&& !spoken ==> rpc_first(v) == RpcModel::Answer(
                error_reply(id, -32600, "Invalid Request"@),
            )
            &&& !m.contains_key("method"@) || !(m["method"@] is Text) ==> rpc_first(v)
                == RpcModel::Answer(error_reply(id, -32600, "Invalid Request"@))
            &&& spoken && asks && !m.contains_key("id"@) ==> rpc_first(v) is Silent
            &&& spoken && asks && m.contains_key("id"@) ==> {
                &&& method == "ping"@ ==> rpc_first(v) == RpcModel::Answer(
                    result_reply(id, JsonModel::Object(Map::empty())),
                )
                &&& method == "tools/list"@ ==> (rpc_first(v) matches Rpc::Answer(a)
                    && json::as_map(a).contains_pair("id"@, id) && json::as_map(
                    json::as_map(a)["result"@],
                ).contains_pair("tools"@, catalogue()))
                &&& method == "tools/call"@ ==> rpc_first(v) == rpc_tool(id, params)
                &&& method == "initialize"@ ==> rpc_first(v) == RpcModel::Answer(
                    result_reply(
                        id,
                        show::object(initialize_fields(at(params, "protocolVersion"@))),
                    ),
                )
                &&& method != "ping"@ && method != "tools/list"@ && method != "tools/call"@
                    && method != "initialize"@ ==> rpc_first(v) == RpcModel::Answer(
                    error_reply(id, -32601, "Method not found"@),
                )
            }
        }),
{
    reveal_strlit("ping");
    reveal_strlit("tools/list");
    reveal_strlit("tools/call");
    reveal_strlit("initialize");
    assert("tools/list"@[6] != "tools/call"@[6]);
    assert("tools/list"@[0] != "initialize"@[0]);
    assert("tools/call"@[0] != "initialize"@[0]);
    law_answers_carry_their_id(
        at(v, "id"@),
        show::object(seq![("tools"@, catalogue())]),
        0,
        Seq::empty(),
    );
    let f = seq![("tools"@, catalogue())];
    json::lemma_last_field(f, 0);
}

/// What is not even an object is no request; what is not JSON cannot be read.
pub proof fn law_what_is_no_object_is_no_request(v: JsonModel)
    requires
        !(v is Object),
    ensures
        rpc_first(v) == RpcModel::Answer(
            error_reply(JsonModel::Null, -32600, "Invalid Request"@),
        ),
        rpc_bytes(None) == RpcModel::Answer(
            error_reply(JsonModel::Null, -32700, "Parse error"@),
        ),
        rpc_bytes(Some(v)) == rpc_first(v),
{
}

/// A client that greets is answered in its version where that is one of the two
/// named here, and else in the one in between; and is told who answers.
pub proof fn law_greeting_agrees_on_a_version(asked: JsonModel)
    ensures
        ({
            let m = json::object(initialize_fields(asked));
            &&& asked == JsonModel::Text("2024-11-05"@) || asked == JsonModel::Text("2025-11-25"@)
                ==> m.contains_pair("protocolVersion"@, asked)
            &&& asked != JsonModel::Text("2024-11-05"@) && asked != JsonModel::Text("2025-11-25"@)
                ==> m.contains_pair("protocolVersion"@, JsonModel::Text("2025-06-18"@))
            &&& m.contains_key("serverInfo"@)
            &&& json::as_map(m["serverInfo"@]).contains_pair(
                "name"@,
                JsonModel::Text("runtime-gatekeeper"@),
            )
            &&& m.contains_key("capabilities"@)
            &&& json::as_map(m["capabilities"@]).contains_key("tools"@)
        }),
{
    let f = initialize_fields(asked);
    reveal_strlit("protocolVersion");
    reveal_strlit("capabilities");
    reveal_strlit("serverInfo");
    reveal_strlit("instructions");
    assert("capabilities"@[0] != "instructions"@[0]);
    assert(f.len() == 4);
    assert(f[0].0 == "protocolVersion"@ && f[0].0.len() == 15);
    assert(f[1].0 == "capabilities"@ && f[1].0.len() == 12);
    assert(f[2].0 == "serverInfo"@ && f[2].0.len() == 10);
    assert(f[3].0 == "instructions"@ && f[3].0.len() == 12);
    assert(json::distinct(f));
    json::lemma_object(f);
    assert(json::object(f).contains_pair(f[0].0, f[0].1));
    assert(json::object(f).contains_pair(f[1].0, f[1].1));
    assert(json::object(f).contains_pair(f[2].0, f[2].1));
    assert(json::object(f).contains_pair(f[3].0, f[3].1));
    let g = seq![
        ("name"@, JsonModel::Text("runtime-gatekeeper"@)),
        ("version"@, JsonModel::Text("0.1.0"@)),
    ];
    reveal_strlit("name");
    reveal_strlit("version");
    assert(g[0].0.len() == 4 && g[1].0.len() == 7);
    json::lemma_last_field(g, 0);
    let h = seq![("tools"@, show::object(seq![("listChanged"@, JsonModel::Bool(false))]))];
    json::lemma_last_field(h, 0);
}

/// What each tool has to be given, and what it may be given besides.
proof fn lemma_arguments_of_tools(name: Seq<char>)
    ensures
        name == "runtime.request"@ ==> needed_arguments(name) == seq![
            "job_id"@,
            "agent"@,
            "requires"@,
        ] && ids::keys(properties(name)) == seq![
            "job_id"@,
            "agent"@,
            "requires"@,
            "memory_bytes"@,
        ],
        name == "runtime.release"@ ==> needed_arguments(name) == seq!["runtime_id"@] && ids::keys(
            properties(name),
        ) == seq!["runtime_id"@],
        name == "services.get"@ || name == "services.start"@ || name == "services.stop"@ || name
            == "services.restart"@ ==> needed_arguments(name) == seq!["service_id"@]
            && ids::keys(properties(name)) == seq!["service_id"@],
        name == "jobs.get"@ ==> needed_arguments(name) == seq!["job_id"@] && ids::keys(
            properties(name),
        ) == seq!["job_id"@],
        name == "runtime.status"@ || name == "services.list"@ || name == "jobs.list"@ || name
            == "runtime.cleanup"@ ==> needed_arguments(name).len() == 0 && ids::keys(
            properties(name),
        ).len() == 0,
{
    reveal_strlit("runtime.status");
    reveal_strlit("runtime.request");
    reveal_strlit("runtime.release");
    reveal_strlit("services.list");
    reveal_strlit("services.get");
    reveal_strlit("services.start");
    reveal_strlit("services.stop");
    reveal_strlit("services.restart");
    reveal_strlit("jobs.list");
    reveal_strlit("jobs.get");
    reveal_strlit("runtime.cleanup");
    assert("runtime.status"@[0] != "services.start"@[0]);
    assert("runtime.request"@[10] != "runtime.release"@[10]);
    assert("runtime.request"@[8] != "runtime.cleanup"@[8]);
    assert("runtime.release"@[8] != "runtime.cleanup"@[8]);
    assert("services.list"@[9] != "services.stop"@[9]);
    assert("runtime.status"@.len() == 14);
    assert("runtime.request"@.len() == 15);
    assert("runtime.release"@.len() == 15);
    assert("services.list"@.len() == 13);
    assert("services.get"@.len() == 12);
    assert("services.start"@.len() == 14);
    assert("services.stop"@.len() == 13);
    assert("services.restart"@.len() == 16);
    assert("jobs.list"@.len() == 9);
    assert("jobs.get"@.len() == 8);
    assert("runtime.cleanup"@.len() == 15);
    let k = ids::keys(properties(name));
    if name == "runtime.request"@ {
        assert(k =~= seq!["job_id"@, "agent"@, "requires"@, "memory_bytes"@]);
    } else if name == "runtime.release"@ {
        assert(k =~= seq!["runtime_id"@]);
    } else if takes_service(name) {
        assert(k =~= seq!["service_id"@]);
    } else if name == "jobs.get"@ {
        assert(k =~= seq!["job_id"@]);
    }
}

/// A request is called just where it is given a job, an agent and what it requires,
/// and nothing else but memory. Arguments that are left out count as none.
pub proof fn law_request_takes_its_arguments(
    id: JsonModel,
    p: Map<Seq<char>, JsonModel>,
    name: Seq<char>,
    args: Map<Seq<char>, JsonModel>,
)
    requires
        p.contains_pair("name"@, JsonModel::Text(name)),
        p.contains_pair("arguments"@, JsonModel::Object(args)) || !p.contains_key("arguments"@)
            && args == Map::<Seq<char>, JsonModel>::empty(),
        name == "runtime.request"@,
    ensures
        rpc_tool(id, JsonModel::Object(p)) == (if args.contains_key("job_id"@) && args.contains_key(
            "agent"@,
        ) && args.contains_key("requires"@) && forall|x: Seq<char>| #[trigger]
            args.contains_key(x) ==> x == "job_id"@ || x == "agent"@ || x == "requires"@ || x
                == "memory_bytes"@ {
            RpcModel::Call { id, name, args: JsonModel::Object(args) }
        } else {
            RpcModel::Answer(error_reply(id, -32602, "Invalid tool arguments"@))
        }),
{
    lemma_tool_is_listed(name);
    lemma_arguments_of_tools(name);
    assert(given_arguments(JsonModel::Object(p)) == JsonModel::Object(args));
    lemma_request_arguments(name, args);
}

/// A release is called with its lease, the four tools of one service with that
/// service, and the tool of one job with that job; and with nothing else.
pub proof fn law_tool_takes_its_one_argument(
    id: JsonModel,
    p: Map<Seq<char>, JsonModel>,
    name: Seq<char>,
    args: Map<Seq<char>, JsonModel>,
    key: Seq<char>,
)
    requires
        p.contains_pair("name"@, JsonModel::Text(name)),
        p.contains_pair("arguments"@, JsonModel::Object(args)) || !p.contains_key("arguments"@)
            && args == Map::<Seq<char>, JsonModel>::empty(),
        name == "runtime.release"@ && key == "runtime_id"@ || (name == "services.get"@ || name
            == "services.start"@ || name == "services.stop"@ || name == "services.restart"@) && key
            == "service_id"@ || name == "jobs.get"@ && key == "job_id"@,
    ensures
        rpc_tool(id, JsonModel::Object(p)) == (if args.contains_key(key) && forall|x: Seq<char>|
            #[trigger] args.contains_key(x) ==> x == key {
            RpcModel::Call { id, name, args: JsonModel::Object(args) }
        } else {
            RpcModel::Answer(error_reply(id, -32602, "Invalid tool arguments"@))
        }),
{
    lemma_tool_is_listed(name);
    lemma_arguments_of_tools(name);
    assert(given_arguments(JsonModel::Object(p)) == JsonModel::Object(args));
    lemma_one_argument(name, args, key);
}

/// The other tools are called with nothing.
pub proof fn law_tool_takes_no_arguments(
    id: JsonModel,
    p: Map<Seq<char>, JsonModel>,
    name: Seq<char>,
    args: Map<Seq<char>, JsonModel>,
)
    requires
        p.contains_pair("name"@, JsonModel::Text(name)),
        p.contains_pair("arguments"@, JsonModel::Object(args)) || !p.contains_key("arguments"@)
            && args == Map::<Seq<char>, JsonModel>::empty(),
        name == "runtime.status"@ || name == "services.list"@ || name == "jobs.list"@ || name
            == "runtime.cleanup"@,
    ensures
        rpc_tool(id, JsonModel::Object(p)) == (if forall|x: Seq<char>| !#[trigger] args.contains_key(x) {
            RpcModel::Call { id, name, args: JsonModel::Object(args) }
        } else {
            RpcModel::Answer(error_reply(id, -32602, "Invalid tool arguments"@))
        }),
{
    lemma_tool_is_listed(name);
    lemma_arguments_of_tools(name);
    assert(given_arguments(JsonModel::Object(p)) == JsonModel::Object(args));
    lemma_no_argument(name, args);
}

/// What is none of the eleven tools is refused as such.
pub proof fn law_unknown_tool_is_refused(
    id: JsonModel,
    p: Map<Seq<char>, JsonModel>,
    name: Seq<char>,
)
    requires
        p.contains_pair("name"@, JsonModel::Text(name)),
        !seq!["runtime.status"@, "runtime.request"@, "runtime.release"@, "services.list"@, "services.get"@, "services.start"@, "services.stop"@, "services.restart"@, "jobs.list"@, "jobs.get"@, "runtime.cleanup"@].contains(name),
    ensures
        rpc_tool(id, JsonModel::Object(p)) == RpcModel::Answer(
            error_reply(id, -32602, "Unknown tool"@),
        ),
{
}

proof fn lemma_tool_is_listed(name: Seq<char>)
    requires
        name == "runtime.status"@ || name == "runtime.request"@ || name == "runtime.release"@ || name == "services.list"@ || name == "services.get"@ || name == "services.start"@ || name == "services.stop"@ || name == "services.restart"@ || name == "jobs.list"@ || name == "jobs.get"@ || name == "runtime.cleanup"@,
    ensures
        tool_names().contains(name),
{
    let all = tool_names();
    assert(all[0] == "runtime.status"@);
    assert(all[1] == "runtime.request"@);
    assert(all[2] == "runtime.release"@);
    assert(all[3] == "services.list"@);
    assert(all[4] == "services.get"@);
    assert(all[5] == "services.start"@);
    assert(all[6] == "services.stop"@);
    assert(all[7] == "services.restart"@);
    assert(all[8] == "jobs.list"@);
    assert(all[9] == "jobs.get"@);
    assert(all[10] == "runtime.cleanup"@);
}

proof fn lemma_no_argument(name: Seq<char>, args: Map<Seq<char>, JsonModel>)
    requires
        needed_arguments(name).len() == 0,
        ids::keys(properties(name)).len() == 0,
    ensures
        are_arguments(name, JsonModel::Object(args)) <==> forall|x: Seq<char>|
            !#[trigger] args.contains_key(x),
{
    let may = ids::keys(properties(name));
    let given = JsonModel::Object(args);
    if are_arguments(name, given) {
        assert forall|x: Seq<char>| !#[trigger] args.contains_key(x) by {
            if args.contains_key(x) {
                assert(given->Object_0.contains_key(x));
                assert(may.contains(x));
            }
        }
    }
    if forall|x: Seq<char>| !#[trigger] args.contains_key(x) {
        assert forall|k: Seq<char>| #[trigger] given->Object_0.contains_key(k) implies may.contains(
            k,
        ) by {
            assert(!args.contains_key(k));
        }
    }
}

proof fn lemma_one_argument(name: Seq<char>, args: Map<Seq<char>, JsonModel>, key: Seq<char>)
    requires
        needed_arguments(name) == seq![key],
        ids::keys(properties(name)) == seq![key],
    ensures
        are_arguments(name, JsonModel::Object(args)) <==> args.contains_key(key) && forall|
            x: Seq<char>,
        | #[trigger]
            args.contains_key(x) ==> x == key,
{
    let k = seq![key];
    assert(k[0] == key && k.contains(key));
    assert(needed_arguments(name)[0] == key);
}

proof fn lemma_request_arguments(name: Seq<char>, args: Map<Seq<char>, JsonModel>)
    requires
        needed_arguments(name) == seq!["job_id"@, "agent"@, "requires"@],
        ids::keys(properties(name)) == seq!["job_id"@, "agent"@, "requires"@, "memory_bytes"@],
    ensures
        are_arguments(name, JsonModel::Object(args)) <==> args.contains_key("job_id"@)
            && args.contains_key("agent"@) && args.contains_key("requires"@) && forall|
            x: Seq<char>,
        | #[trigger]
            args.contains_key(x) ==> x == "job_id"@ || x == "agent"@ || x == "requires"@ || x
                == "memory_bytes"@,
{
    let need = needed_arguments(name);
    let may = ids::keys(properties(name));
    assert(need[0] == "job_id"@ && need[1] == "agent"@ && need[2] == "requires"@);
    assert(may[0] == "job_id"@ && may[1] == "agent"@ && may[2] == "requires"@ && may[3]
        == "memory_bytes"@);
}

/// Arguments that are no object are never taken.
pub proof fn law_arguments_are_an_object(
    id: JsonModel,
    p: Map<Seq<char>, JsonModel>,
    args: JsonModel,
)
    requires
        p.contains_pair("arguments"@, args),
        !(args is Object),
    ensures
        !(rpc_tool(id, JsonModel::Object(p)) is Call),
{
}

/// What a tool came to is told as it is: a result in full, once as text and once as
/// it stands; a refusal with its message, marked as an error.
pub proof fn law_outcome_of_a_tool_is_told(v: JsonModel, d: Denial<Seq<char>>)
    ensures
        ({
            let good = json::as_map(tool_result(Ok(v)));
            let bad = json::as_map(tool_result(Err(d)));
            let says = |j: JsonModel, s: Seq<char>|
                j matches JsonModel::List(l) && l.len() == 1 && json::as_map(l[0]).contains_pair(
                    "type"@,
                    JsonModel::Text("text"@),
                ) && json::as_map(l[0]).contains_pair("text"@, JsonModel::Text(s));
            &&& good.contains_pair("structuredContent"@, v)
            &&& good.contains_pair("isError"@, JsonModel::Bool(false))
            &&& good.contains_key("content"@) && says(good["content"@], json::written(v))
            &&& bad.contains_pair("isError"@, JsonModel::Bool(true))
            &&& bad.contains_key("content"@) && says(bad["content"@], d.text())
            &&& !bad.contains_key("structuredContent"@)
        }),
{
    reveal_strlit("content");
    reveal_strlit("structuredContent");
    reveal_strlit("isError");
    assert("content"@[0] != "isError"@[0]);
    let f = seq![
        ("content"@, content(json::written(v))),
        ("structuredContent"@, v),
        ("isError"@, JsonModel::Bool(false)),
    ];
    assert(f[0].0.len() == 7 && f[1].0.len() == 17 && f[2].0.len() == 7);
    assert(f[0].0 != f[2].0);
    assert(json::distinct(f));
    json::lemma_object(f);
    assert(json::object(f).contains_pair(f[0].0, f[0].1));
    assert(json::object(f).contains_pair(f[1].0, f[1].1));
    assert(json::object(f).contains_pair(f[2].0, f[2].1));
    let g = seq![("content"@, content(d.text())), ("isError"@, JsonModel::Bool(true))];
    assert(g[0].0.len() == 7 && g[1].0.len() == 7);
    assert(json::distinct(g));
    json::lemma_object(g);
    assert(json::object(g).contains_pair(g[0].0, g[0].1));
    assert(json::object(g).contains_pair(g[1].0, g[1].1));
    lemma_content(json::written(v));
    lemma_content(d.text());
}

proof fn lemma_content(s: Seq<char>)
    ensures
        content(s) matches JsonModel::List(l) && l.len() == 1 && json::as_map(l[0]).contains_pair(
            "type"@,
            JsonModel::Text("text"@),
        ) && json::as_map(l[0]).contains_pair("text"@, JsonModel::Text(s)),
{
    let f = seq![("type"@, JsonModel::Text("text"@)), ("text"@, JsonModel::Text(s))];
    reveal_strlit("type");
    reveal_strlit("text");
    assert("type"@[1] != "text"@[1]);
    assert(f[0].0 != f[1].0);
    json::lemma_last_field(f, 0);
    json::lemma_last_field(f, 1);
}

/// The catalogue lists every tool once, with its name, with what it needs and takes,
/// that it takes nothing else, and whether it only reads.
pub proof fn law_catalogue_describes_the_tools(i: int)
    requires
        0 <= i < tool_names().len(),
    ensures
        ({
            let name = tool_names()[i];
            let reads = name == "runtime.status"@ || name == "services.list"@ || name
                == "services.get"@ || name == "jobs.list"@ || name == "jobs.get"@;
            &&& tool_names().len() == 11
            &&& catalogue() matches JsonModel::List(l)
            &&& l.len() == 11
            &&& json::as_map(l[i]).contains_pair("name"@, JsonModel::Text(name))
            &&& json::as_map(l[i]).contains_key("description"@)
            &&& json::as_map(l[i]).contains_key("inputSchema"@)
            &&& json::as_map(json::as_map(l[i])["inputSchema"@]).contains_pair(
                "required"@,
                JsonModel::List(
                    needed_arguments(name).map_values(|s: Seq<char>| JsonModel::Text(s)),
                ),
            )
            &&& json::as_map(json::as_map(l[i])["inputSchema"@]).contains_pair(
                "properties"@,
                JsonModel::Object(json::object(properties(name))),
            )
            &&& json::as_map(json::as_map(l[i])["inputSchema"@]).contains_pair(
                "additionalProperties"@,
                JsonModel::Bool(false),
            )
            &&& json::as_map(l[i]).contains_key("annotations"@)
            &&& json::as_map(json::as_map(l[i])["annotations"@]).contains_pair(
                "readOnlyHint"@,
                JsonModel::Bool(reads),
            )
        }),
{
    let name = tool_names()[i];
    let f = tool_fields(name);
    reveal_strlit("name");
    reveal_strlit("description");
    reveal_strlit("inputSchema");
    reveal_strlit("annotations");
    assert("description"@[0] != "inputSchema"@[0]);
    assert("description"@[0] != "annotations"@[0]);
    assert("inputSchema"@[0] != "annotations"@[0]);
    assert(f.len() == 4);
    assert(f[0].0 == "name"@ && f[0].0.len() == 4);
    assert(f[1].0 == "description"@ && f[1].0.len() == 11);
    assert(f[2].0 == "inputSchema"@ && f[2].0.len() == 11);
    assert(f[3].0 == "annotations"@ && f[3].0.len() == 11);
    assert(json::distinct(f));
    json::lemma_object(f);
    assert(json::object(f).contains_pair(f[0].0, f[0].1));
    assert(json::object(f).contains_pair(f[1].0, f[1].1));
    assert(json::object(f).contains_pair(f[2].0, f[2].1));
    assert(json::object(f).contains_pair(f[3].0, f[3].1));
    lemma_schema(name);
    let g = annotation_fields(name);
    reveal_strlit("readOnlyHint");
    reveal_strlit("openWorldHint");
    assert(g[0].0.len() == 12 && g[1].0.len() == 13);
    json::lemma_last_field(g, 0);
}

proof fn lemma_schema(name: Seq<char>)
    ensures
        ({
            let m = json::object(schema_fields(name));
            &&& m.contains_pair(
                "required"@,
                JsonModel::List(
                    needed_arguments(name).map_values(|s: Seq<char>| JsonModel::Text(s)),
                ),
            )
            &&& m.contains_pair("properties"@, JsonModel::Object(json::object(properties(name))))
            &&& m.contains_pair("additionalProperties"@, JsonModel::Bool(false))
        }),
{
    let f = schema_fields(name);
    reveal_strlit("type");
    reveal_strlit("properties");
    reveal_strlit("required");
    reveal_strlit("additionalProperties");
    assert(f.len() == 4);
    assert(f[0].0 == "type"@ && f[0].0.len() == 4);
    assert(f[1].0 == "properties"@ && f[1].0.len() == 10);
    assert(f[2].0 == "required"@ && f[2].0.len() == 8);
    assert(f[3].0 == "additionalProperties"@ && f[3].0.len() == 20);
    assert(json::distinct(f));
    json::lemma_object(f);
    assert(json::object(f).contains_pair(f[0].0, f[0].1));
    assert(json::object(f).contains_pair(f[1].0, f[1].1));
    assert(json::object(f).contains_pair(f[2].0, f[2].1));
    assert(json::object(f).contains_pair(f[3].0, f[3].1));
}

/// The catalogue says what arguments are: names of 1 to 128 characters, a list of at
/// least one text, a count that is not negative, and plain texts for all else.
pub proof fn law_arguments_are_described()
    ensures
        ({
            let m = json::object(properties("runtime.request"@));
            let name = |j: JsonModel|
                json::as_map(j).contains_pair("type"@, JsonModel::Text("string"@)) && json::as_map(
                    j,
                ).contains_pair("minLength"@, JsonModel::Integer(1)) && json::as_map(
                    j,
                ).contains_pair("maxLength"@, JsonModel::Integer(128));
            &&& m.contains_key("job_id"@) && name(m["job_id"@])
            &&& m.contains_key("agent"@) && name(m["agent"@])
            &&& m.contains_key("requires"@)
            &&& json::as_map(m["requires"@]).contains_pair("type"@, JsonModel::Text("array"@))
            &&& json::as_map(m["requires"@]).contains_pair("minItems"@, JsonModel::Integer(1))
            &&& m.contains_key("memory_bytes"@)
            &&& json::as_map(m["memory_bytes"@]).contains_pair(
                "type"@,
                JsonModel::Text("integer"@),
            )
            &&& json::as_map(m["memory_bytes"@]).contains_pair("minimum"@, JsonModel::Integer(0))
        }),
        json::as_map(text_property()).contains_pair("type"@, JsonModel::Text("string"@)),
{
    let f = properties("runtime.request"@);
    reveal_strlit("job_id");
    reveal_strlit("agent");
    reveal_strlit("requires");
    reveal_strlit("memory_bytes");
    assert(f.len() == 4);
    assert(f[0].0 == "job_id"@ && f[0].0.len() == 6);
    assert(f[1].0 == "agent"@ && f[1].0.len() == 5);
    assert(f[2].0 == "requires"@ && f[2].0.len() == 8);
    assert(f[3].0 == "memory_bytes"@ && f[3].0.len() == 12);
    assert(json::distinct(f));
    json::lemma_object(f);
    let n = seq![
        ("type"@, JsonModel::Text("string"@)),
        ("minLength"@, JsonModel::Integer(1)),
        ("maxLength"@, JsonModel::Integer(128)),
    ];
    let l = seq![
        ("type"@, JsonModel::Text("array"@)),
        ("items"@, text_property()),
        ("minItems"@, JsonModel::Integer(1)),
    ];
    let b = seq![
        ("type"@, JsonModel::Text("integer"@)),
        ("minimum"@, JsonModel::Integer(0)),
        (
            "description"@,
            JsonModel::Text("Additional job memory beyond service startup estimates, in bytes"@),
        ),
    ];
    reveal_strlit("type");
    reveal_strlit("minLength");
    reveal_strlit("maxLength");
    reveal_strlit("items");
    reveal_strlit("minItems");
    reveal_strlit("minimum");
    reveal_strlit("description");
    assert("minLength"@[1] != "maxLength"@[1]);
    assert(n[0].0.len() == 4 && n[1].0.len() == 9 && n[2].0.len() == 9);
    assert(l[0].0.len() == 4 && l[1].0.len() == 5 && l[2].0.len() == 8);
    assert(b[0].0.len() == 4 && b[1].0.len() == 7 && b[2].0.len() == 11);
    lemma_three(n);
    lemma_three(l);
    lemma_three(b);
    let t = seq![("type"@, JsonModel::Text("string"@))];
    json::lemma_last_field(t, 0);
}

proof fn lemma_three(f: show::Fields)
    requires
        f.len() == 3,
        f[0].0 != f[1].0,
        f[0].0 != f[2].0,
        f[1].0 != f[2].0,
    ensures
        json::object(f).contains_pair(f[0].0, f[0].1),
        json::object(f).contains_pair(f[1].0, f[1].1),
        json::object(f).contains_pair(f[2].0, f[2].1),
{
    json::lemma_last_field(f, 0);
    json::lemma_last_field(f, 1);
    json::lemma_last_field(f, 2);
}

} // verus!
