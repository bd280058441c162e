//! The body of a chat-completions request.

use crate::json::{
    clone_all, json_models, keys_differ, lemma_json_models, lemma_lookup_at, lemma_lookup_found,
    member_models, no_key_twice, Json, JsonModel,
};
use vstd::prelude::*;

verus! {

/// A function that the model may call.
#[derive(Debug, PartialEq)]
pub struct Tool {
    pub name: String,
    pub description: String,
    /// The JSON schema of the parameters.
    pub params: Json,
}

/// The conversation so far.
#[derive(Debug, PartialEq)]
pub struct LlmContext {
    /// The messages, as they are sent.
    pub messages: Vec<Json>,
    /// Declarations of the functions that the model may call, each
    /// `{ "name": ..., "description": ..., "params": ... }`.
    pub tools: Vec<Json>,
}

/// The model of a [`Tool`].
pub struct ToolModel {
    pub name: Seq<char>,
    pub description: Seq<char>,
    pub params: JsonModel,
}

impl View for Tool {
    type V = ToolModel;

    open spec fn view(&self) -> ToolModel {
        ToolModel { name: self.name@, description: self.description@, params: self.params@ }
    }
}

/// The models of a sequence of tools.
pub open spec fn tool_models(tools: Seq<Tool>) -> Seq<ToolModel> {
    tools.map_values(|t: Tool| t@)
}

/// The tool with these parts; `None` where one is missing.
pub open spec fn tool_of(
    name: Option<Seq<char>>,
    description: Option<Seq<char>>,
    params: Option<JsonModel>,
) -> Option<ToolModel> {
    if name is Some && description is Some && params is Some {
        Some(ToolModel { name: name->0, description: description->0, params: params->0 })
    } else {
        None
    }
}

/// The tool that `declaration` declares: an object with the strings `name` and `description` and
/// with `params`, or an array of just these three in this order. `None` for other values.
pub open spec fn declared_tool(declaration: JsonModel) -> Option<ToolModel> {
    match declaration {
        JsonModel::Object(_) => tool_of(
            declaration.get_str("name"@),
            declaration.get_str("description"@),
            declaration.get("params"@),
        ),
        JsonModel::Array(items) => if items.len() == 3 {
            tool_of(items[0].as_str(), items[1].as_str(), Some(items[2]))
        } else {
            None
        },
        _ => None,
    }
}

/// A tool as the API wants it:
/// `{ "type": "function", "function": { "name", "description", "parameters" } }`.
pub open spec fn tool_schema(tool: ToolModel) -> JsonModel {
    JsonModel::Object(
        seq![
            ("type"@, JsonModel::String("function"@)),
            (
                "function"@,
                JsonModel::Object(
                    seq![
                        ("name"@, JsonModel::String(tool.name)),
                        ("description"@, JsonModel::String(tool.description)),
                        ("parameters"@, tool.params),
                    ],
                ),
            ),
        ],
    )
}

/// The tools that `declarations` declare, as the API wants them. A declaration of no tool is left
/// out.
pub open spec fn declared_schemas(declarations: Seq<JsonModel>) -> Seq<JsonModel>
    decreases declarations.len(),
{
    if declarations.len() == 0 {
        Seq::empty()
    } else {
        let before = declared_schemas(declarations.drop_last());
        match declared_tool(declarations.last()) {
            Some(tool) => before.push(tool_schema(tool)),
            None => before,
        }
    }
}

/// The tools of a request: those of the context where it declares any, else the service's own.
pub open spec fn request_tools(
    declarations: Seq<JsonModel>,
    own: Seq<ToolModel>,
) -> Seq<JsonModel> {
    if declarations.len() > 0 {
        declared_schemas(declarations)
    } else {
        own.map_values(|t: ToolModel| tool_schema(t))
    }
}

/// The members of every request: the model, the messages, and that the answer be streamed, with
/// its token usage.
pub open spec fn common_members(
    model: Seq<char>,
    messages: Seq<JsonModel>,
) -> Seq<(Seq<char>, JsonModel)> {
    seq![
        ("model"@, JsonModel::String(model)),
        ("messages"@, JsonModel::Array(messages)),
        ("stream"@, JsonModel::Bool(true)),
        (
            "stream_options"@,
            JsonModel::Object(seq![("include_usage"@, JsonModel::Bool(true))]),
        ),
    ]
}

/// The body of a request.
pub open spec fn body_model(
    model: Seq<char>,
    messages: Seq<JsonModel>,
    tools: Seq<JsonModel>,
) -> JsonModel {
    JsonModel::Object(
        if tools.len() > 0 {
            common_members(model, messages).push(("tools"@, JsonModel::Array(tools)))
        } else {
            common_members(model, messages)
        },
    )
}

/// The member `key` with the string `value`.
fn string_entry(key: &str, value: &str) -> (r: (String, Json))
    ensures
        r.0@ == key@,
        r.1@ == JsonModel::String(value@),
{
    (key.to_owned(), Json::String(value.to_owned()))
}

/// The tool with these parts; `None` where one is missing.
fn make_tool(name: Option<&str>, description: Option<&str>, params: Option<&Json>) -> (r: Option<
    Tool,
>)
    ensures
        r is Some <==> name is Some && description is Some && params is Some,
        r matches Some(tool) ==> tool@ == (ToolModel {
            name: name->0@,
            description: description->0@,
            params: params->0@,
        }),
{
    if let Some(name) = name {
        if let Some(description) = description {
            if let Some(params) = params {
                return Some(
                    Tool {
                        name: name.to_owned(),
                        description: description.to_owned(),
                        params: params.clone(),
                    },
                );
            }
        }
    }
    None
}

impl Tool {
    /// Reads a declaration of a tool; `None` where it declares none.
    pub fn from_json(declaration: &Json) -> (r: Option<Tool>)
        ensures
            match r {
                Some(tool) => declared_tool(declaration@) == Some(tool@),
                None => declared_tool(declaration@) is None,
            },
    {
        match declaration {
            Json::Object(_) => make_tool(
                declaration.get_str("name"),
                declaration.get_str("description"),
                declaration.get("params"),
            ),
            Json::Array(items) => {
                proof {
                    lemma_json_models(items@);
                }
                if items.len() == 3 {
                    assert(json_models(items@)[0] == items@[0]@);
                    assert(json_models(items@)[1] == items@[1]@);
                    assert(json_models(items@)[2] == items@[2]@);
                    make_tool(items[0].as_str(), items[1].as_str(), Some(&items[2]))
                } else {
                    None
                }
            },
            _ => None,
        }
    }
}

/// A tool as the API wants it.
pub fn tool_to_openai(tool: &Tool) -> (r: Json)
    ensures
        r@ == tool_schema(tool@),
{
    let mut function: Vec<(String, Json)> = Vec::new();
    function.push(string_entry("name", tool.name.as_str()));
    function.push(string_entry("description", tool.description.as_str()));
    function.push(("parameters".to_owned(), tool.params.clone()));
    let mut schema: Vec<(String, Json)> = Vec::new();
    schema.push(string_entry("type", "function"));
    proof {
        reveal_with_fuel(member_models, 4);
        assert(member_models(function@) =~= seq![
            ("name"@, JsonModel::String(tool@.name)),
            ("description"@, JsonModel::String(tool@.description)),
            ("parameters"@, tool@.params),
        ]);
    }
    schema.push(("function".to_owned(), Json::Object(function)));
    proof {
        reveal_with_fuel(member_models, 3);
        assert(member_models(schema@) =~= tool_schema(tool@)->Object_0);
    }
    Json::Object(schema)
}

/// The tools of a request: those of the context where it declares any, else `own`.
fn collect_tools(declarations: &Vec<Json>, own: &Vec<Tool>) -> (r: Vec<Json>)
    ensures
        json_models(r@) == request_tools(json_models(declarations@), tool_models(own@)),
{
    broadcast use lemma_json_models;

    let ghost models = json_models(declarations@);
    let mut tools: Vec<Json> = Vec::new();
    let mut i: usize = 0;
    if declarations.len() > 0 {
        assert(json_models(tools@) =~= declared_schemas(models.take(0)));
        while i < declarations.len()
            invariant
                i <= declarations@.len(),
                models == json_models(declarations@),
                models.len() == declarations@.len(),
                json_models(tools@) == declared_schemas(models.take(i as int)),
            decreases declarations@.len() - i,
        {
            broadcast use lemma_json_models;

            let ghost taken = models.take(i + 1);
            assert(taken.drop_last() =~= models.take(i as int));
            assert(taken.last() == declarations@[i as int]@);
            let ghost before = tools@;
            if let Some(tool) = Tool::from_json(&declarations[i]) {
                tools.push(tool_to_openai(&tool));
                assert(tools@.drop_last() =~= before);
            }
            i = i + 1;
        }
        assert(models.take(i as int) =~= models);
    } else {
        while i < own.len()
            invariant
                i <= own@.len(),
                tools@.len() == i,
                forall|j: int| 0 <= j < i ==> (#[trigger] tools@[j])@ == tool_schema(own@[j]@),
            decreases own@.len() - i,
        {
            tools.push(tool_to_openai(&own[i]));
            i = i + 1;
        }
        assert(json_models(tools@) =~= request_tools(models, tool_models(own@)));
    }
    tools
}

/// The body of a request to `model` for the conversation `ctx`, with the service's `own` tools
/// where the context declares none.
pub fn chat_body(model: &str, ctx: &LlmContext, own: &Vec<Tool>) -> (r: Json)
    ensures
        r@ == body_model(
            model@,
            json_models(ctx.messages@),
            request_tools(json_models(ctx.tools@), tool_models(own@)),
        ),
{
    let tools = collect_tools(&ctx.tools, own);
    proof {
        lemma_json_models(tools@);
    }
    let mut options: Vec<(String, Json)> = Vec::new();
    options.push(("include_usage".to_owned(), Json::Bool(true)));
    let mut body: Vec<(String, Json)> = Vec::new();
    body.push(string_entry("model", model));
    body.push(("messages".to_owned(), Json::Array(clone_all(&ctx.messages))));
    body.push(("stream".to_owned(), Json::Bool(true)));
    proof {
        reveal_with_fuel(member_models, 2);
        assert(member_models(options@) =~= seq![("include_usage"@, JsonModel::Bool(true))]);
    }
    body.push(("stream_options".to_owned(), Json::Object(options)));
    proof {
        reveal_with_fuel(member_models, 5);
        assert(member_models(body@) =~= common_members(model@, json_models(ctx.messages@)));
    }
    let ghost common = body@;
    if tools.len() > 0 {
        let ghost listed = json_models(tools@);
        body.push(("tools".to_owned(), Json::Array(tools)));
        proof {
            assert(body@.drop_last() =~= common);
            assert(body@.last().0@ == "tools"@);
            assert(body@.last().1@ == JsonModel::Array(listed));
            assert(member_models(body@) =~= member_models(common).push(
                ("tools"@, JsonModel::Array(listed)),
            ));
        }
    }
    Json::Object(body)
}

/// Every request carries the model, the messages, `"stream": true` and
/// `"stream_options": { "include_usage": true }`; it carries `tools` where there are any, and only
/// then. It carries nothing else.
pub proof fn law_request_members(
    model: Seq<char>,
    messages: Seq<JsonModel>,
    tools: Seq<JsonModel>,
)
    ensures
        ({
            let body = body_model(model, messages, tools);
            &&& body.get("model"@) == Some(JsonModel::String(model))
            &&& body.get("messages"@) == Some(JsonModel::Array(messages))
            &&& body.get("stream"@) == Some(JsonModel::Bool(true))
            &&& body.get("stream_options"@) is Some
            &&& body.get("stream_options"@)->0.get("include_usage"@) == Some(JsonModel::Bool(true))
            &&& body.get("tools"@) == (if tools.len() > 0 {
                Some(JsonModel::Array(tools))
            } else {
                None
            })
            &&& body is Object
            &&& body->Object_0.len() == (if tools.len() > 0 {
                5int
            } else {
                4
            })
            &&& body.get("stream_options"@)->0 is Object
            &&& body.get("stream_options"@)->0->Object_0.len() == 1
        }),
{
    reveal_strlit("model");
    reveal_strlit("messages");
    reveal_strlit("stream");
    reveal_strlit("stream_options");
    reveal_strlit("tools");
    assert("tools"@[0] == 't' && "model"@[0] == 'm');
    assert("model"@.len() == 5 && "messages"@.len() == 8 && "stream"@.len() == 6
        && "stream_options"@.len() == 14 && "tools"@.len() == 5);
    let members = body_model(model, messages, tools)->Object_0;
    assert(members[0].0 == "model"@ && members[1].0 == "messages"@ && members[2].0 == "stream"@
        && members[3].0 == "stream_options"@);
    lemma_lookup_at(members, "model"@, 0);
    lemma_lookup_at(members, "messages"@, 1);
    lemma_lookup_at(members, "stream"@, 2);
    lemma_lookup_at(members, "stream_options"@, 3);
    lemma_lookup_at(members, "tools"@, 4);
    lemma_lookup_at(seq![("include_usage"@, JsonModel::Bool(true))], "include_usage"@, 0);
}

/// A tool goes out as `{ "type": "function", "function": { ... } }` with its name, its description
/// and its parameters, and with nothing else.
pub proof fn law_tool_shape(tool: ToolModel)
    ensures
        ({
            let schema = tool_schema(tool);
            &&& schema.get("type"@) == Some(JsonModel::String("function"@))
            &&& schema.get("function"@) is Some
            &&& schema.get("function"@)->0.get("name"@) == Some(JsonModel::String(tool.name))
            &&& schema.get("function"@)->0.get("description"@) == Some(
                JsonModel::String(tool.description),
            )
            &&& schema.get("function"@)->0.get("parameters"@) == Some(tool.params)
            &&& schema is Object
            &&& schema->Object_0.len() == 2
            &&& schema.get("function"@)->0 is Object
            &&& schema.get("function"@)->0->Object_0.len() == 3
        }),
{
    reveal_strlit("type");
    reveal_strlit("function");
    reveal_strlit("name");
    reveal_strlit("description");
    reveal_strlit("parameters");
    assert("type"@.len() == 4 && "function"@.len() == 8);
    assert("name"@.len() == 4 && "description"@.len() == 11 && "parameters"@.len() == 10);
    let members = tool_schema(tool)->Object_0;
    assert(members[0].0 == "type"@ && members[1].0 == "function"@);
    lemma_lookup_at(members, "type"@, 0);
    lemma_lookup_at(members, "function"@, 1);
    let function = members[1].1->Object_0;
    assert(function[0].0 == "name"@ && function[1].0 == "description"@);
    lemma_lookup_at(function, "name"@, 0);
    lemma_lookup_at(function, "description"@, 1);
    lemma_lookup_at(function, "parameters"@, 2);
}

/// The declaration `{ "name", "description", "params" }` declares the tool with these parts.
pub proof fn law_declaration(tool: ToolModel)
    ensures
        declared_tool(
            JsonModel::Object(
                seq![
                    ("name"@, JsonModel::String(tool.name)),
                    ("description"@, JsonModel::String(tool.description)),
                    ("params"@, tool.params),
                ],
            ),
        ) == Some(tool),
{
    reveal_strlit("name");
    reveal_strlit("description");
    reveal_strlit("params");
    let members = seq![
        ("name"@, JsonModel::String(tool.name)),
        ("description"@, JsonModel::String(tool.description)),
        ("params"@, tool.params),
    ];
    assert("name"@.len() == 4 && "description"@.len() == 11 && "params"@.len() == 6);
    assert(members[0].0 == "name"@ && members[1].0 == "description"@);
    lemma_lookup_at(members, "name"@, 0);
    lemma_lookup_at(members, "description"@, 1);
    lemma_lookup_at(members, "params"@, 2);
}

/// No tool goes out as it was declared: each that a context's declarations put into a request is
/// the schema of a tool that one of them declares.
pub proof fn law_declared_tools_are_wrapped(declarations: Seq<JsonModel>, i: int) -> (j: int)
    requires
        0 <= i < declared_schemas(declarations).len(),
    ensures
        0 <= j < declarations.len(),
        declared_tool(declarations[j]) is Some,
        declared_schemas(declarations)[i] == tool_schema(declared_tool(declarations[j])->0),
    decreases declarations.len(),
{
    let before = declared_schemas(declarations.drop_last());
    if i < before.len() {
        law_declared_tools_are_wrapped(declarations.drop_last(), i)
    } else {
        declarations.len() - 1
    }
}

/// No declared tool is lost: each declaration of a tool has its schema in the request.
pub proof fn law_declared_tools_are_sent(declarations: Seq<JsonModel>, j: int) -> (i: int)
    requires
        0 <= j < declarations.len(),
        declared_tool(declarations[j]) is Some,
    ensures
        0 <= i < declared_schemas(declarations).len(),
        declared_schemas(declarations)[i] == tool_schema(declared_tool(declarations[j])->0),
    decreases declarations.len(),
{
    let before = declared_schemas(declarations.drop_last());
    if j < declarations.len() - 1 {
        law_declared_tools_are_sent(declarations.drop_last(), j)
    } else {
        before.len() as int
    }
}

/// The schema of a tool repeats no key where the tool's parameters repeat none.
proof fn lemma_schema_keys(tool: ToolModel)
    requires
        no_key_twice(tool.params),
    ensures
        no_key_twice(tool_schema(tool)),
{
    reveal_strlit("type");
    reveal_strlit("function");
    reveal_strlit("name");
    reveal_strlit("description");
    reveal_strlit("parameters");
    assert("type"@.len() == 4 && "function"@.len() == 8);
    assert("name"@.len() == 4 && "description"@.len() == 11 && "parameters"@.len() == 10);
    reveal_with_fuel(no_key_twice, 3);
    let members = tool_schema(tool)->Object_0;
    let function = members[1].1->Object_0;
    assert(members[0].0 == "type"@ && members[1].0 == "function"@);
    assert(function[0].0 == "name"@ && function[1].0 == "description"@ && function[2].0
        == "parameters"@);
    assert(no_key_twice(members[1].1));
}

/// A tool whose declaration repeats no key has parameters that repeat none.
proof fn lemma_declared_params(declaration: JsonModel)
    requires
        no_key_twice(declaration),
        declared_tool(declaration) is Some,
    ensures
        no_key_twice(declared_tool(declaration)->0.params),
{
    if declaration is Object {
        lemma_lookup_found(declaration->Object_0, "params"@);
    }
}

/// No object of a request, at any depth, has two members with the same key, where that holds of
/// the messages, of the declarations and of the parameters of the service's own tools.
pub proof fn law_request_repeats_no_key(
    model: Seq<char>,
    messages: Seq<JsonModel>,
    declarations: Seq<JsonModel>,
    own: Seq<ToolModel>,
)
    requires
        forall|i: int| 0 <= i < messages.len() ==> no_key_twice(#[trigger] messages[i]),
        forall|i: int| 0 <= i < declarations.len() ==> no_key_twice(#[trigger] declarations[i]),
        forall|i: int| 0 <= i < own.len() ==> no_key_twice((#[trigger] own[i]).params),
    ensures
        no_key_twice(body_model(model, messages, request_tools(declarations, own))),
{
    let tools = request_tools(declarations, own);
    assert forall|i: int| 0 <= i < tools.len() implies no_key_twice(#[trigger] tools[i]) by {
        if declarations.len() > 0 {
            let j = law_declared_tools_are_wrapped(declarations, i);
            lemma_declared_params(declarations[j]);
            lemma_schema_keys(declared_tool(declarations[j])->0);
        } else {
            lemma_schema_keys(own[i]);
        }
    }
    assert(no_key_twice(JsonModel::Array(tools)) && no_key_twice(JsonModel::Array(messages)));
    reveal_strlit("model");
    reveal_strlit("messages");
    reveal_strlit("stream");
    reveal_strlit("stream_options");
    reveal_strlit("tools");
    assert("tools"@[0] == 't' && "model"@[0] == 'm');
    assert("model"@.len() == 5 && "messages"@.len() == 8 && "stream"@.len() == 6
        && "stream_options"@.len() == 14 && "tools"@.len() == 5);
    let members = body_model(model, messages, tools)->Object_0;
    assert(members[0].0 == "model"@ && members[1].0 == "messages"@ && members[2].0 == "stream"@
        && members[3].0 == "stream_options"@);
    assert(keys_differ(members));
    let options = seq![("include_usage"@, JsonModel::Bool(true))];
    assert(no_key_twice(JsonModel::Object(options))) by {
        assert(no_key_twice(options[0].1));
    }
    assert(no_key_twice(members[0].1) && no_key_twice(members[2].1));
}

/// Where the context declares no tools, the request offers all of the service's own: as many, and
/// each in its place.
pub proof fn law_own_tools_are_all_sent(own: Seq<ToolModel>)
    ensures
        request_tools(Seq::empty(), own).len() == own.len(),
        forall|i: int|
            0 <= i < own.len() ==> #[trigger] request_tools(Seq::empty(), own)[i] == tool_schema(
                own[i],
            ),
{
}

/// Where the context declares any tools, the request offers those and none of the service's own:
/// of each declaration, in their order, the schema of the tool that it declares, and nothing of a
/// declaration of no tool.
pub proof fn law_declared_tools_take_precedence(
    declarations: Seq<JsonModel>,
    own: Seq<ToolModel>,
)
    requires
        declarations.len() > 0,
    ensures
        request_tools(declarations, own) == declarations.filter(
            |d: JsonModel| declared_tool(d) is Some,
        ).map_values(|d: JsonModel| tool_schema(declared_tool(d)->0)),
{
    lemma_declared_schemas(declarations);
}

proof fn lemma_declared_schemas(declarations: Seq<JsonModel>)
    ensures
        declared_schemas(declarations) == declarations.filter(
            |d: JsonModel| declared_tool(d) is Some,
        ).map_values(|d: JsonModel| tool_schema(declared_tool(d)->0)),
    decreases declarations.len(),
{
    reveal(Seq::filter);
    let declares = |d: JsonModel| declared_tool(d) is Some;
    let schema = |d: JsonModel| tool_schema(declared_tool(d)->0);
    if declarations.len() == 0 {
        assert(declarations.filter(declares).map_values(schema) =~= Seq::<JsonModel>::empty());
    } else {
        let before = declarations.drop_last();
        lemma_declared_schemas(before);
        if declared_tool(declarations.last()) is Some {
            assert(before.filter(declares).push(declarations.last()).map_values(schema)
                =~= before.filter(declares).map_values(schema).push(schema(declarations.last())));
        }
    }
}

/// A declaration declares a tool where it is an object with the strings `name` and `description`
/// and with `params`, whatever else it holds, or an array of just these three; the tool has these
/// parts, unchanged. Nothing else declares a tool.
pub proof fn law_declared_tool(declaration: JsonModel, tool: ToolModel)
    ensures
        declared_tool(declaration) == Some(tool) <==> ({
            let name = JsonModel::String(tool.name);
            let description = JsonModel::String(tool.description);
            ||| declaration is Object && declaration.get("name"@) == Some(name) && declaration.get(
                "description"@,
            ) == Some(description) && declaration.get("params"@) == Some(tool.params)
            ||| declaration == JsonModel::Array(seq![name, description, tool.params])
        }),
{
    if let JsonModel::Array(items) = declaration {
        if declared_tool(declaration) == Some(tool) {
            assert(items =~= seq![
                JsonModel::String(tool.name),
                JsonModel::String(tool.description),
                tool.params,
            ]);
        }
    }
}

/// The model of a tool holds its name, its description and its parameters; tools are modelled one
/// by one, in their order.
pub proof fn law_model_keeps_the_tools(tools: Seq<Tool>)
    ensures
        tool_models(tools).len() == tools.len(),
        forall|i: int|
            0 <= i < tools.len() ==> {
                let model = #[trigger] tool_models(tools)[i];
                &&& model.name == tools[i].name@
                &&& model.description == tools[i].description@
                &&& model.params == tools[i].params@
            },
{
}

} // verus!
