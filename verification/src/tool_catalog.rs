//! The tools that an agent can call.

use vstd::prelude::*;
use vstd::string::*;

use crate::json::{Json, JsonView};
use crate::loop_engine::metrics::{checked_args, schema_check, validate_args};
use crate::message::{ToolCall, ToolCallView};
use crate::text::{holds_text, same, views};
use crate::tool::{ToolError, ToolErrorView};
use crate::tools::bash::{terminal_schema, BashTool, TERMINAL_TOOL_DESCRIPTION};
use crate::tools::files::patch::{patch_schema, PatchTool, PATCH_DESCRIPTION};
use crate::tools::files::read::{read_file_schema, ReadFileTool, READ_FILE_DESCRIPTION};
use crate::tools::files::search::{search_files_schema, SearchFilesTool, SEARCH_FILES_DESCRIPTION};
use crate::tools::files::write::{write_file_schema, WriteFileTool, WRITE_FILE_DESCRIPTION};
use crate::tools::skills::list::{skills_list_schema, SkillListTool, SKILLS_LIST_DESCRIPTION};
use crate::tools::skills::view::{skill_view_schema, SkillViewTool, SKILL_VIEW_DESCRIPTION};

verus! {

/// A tool as the model knows it.
pub struct ToolSchema {
    pub name: String,
    pub description: String,
    pub parameters: Json,
}

#[verifier::ext_equal]
pub ghost struct SchemaView {
    pub name: Seq<char>,
    pub description: Seq<char>,
    pub parameters: JsonView,
}

impl View for ToolSchema {
    type V = SchemaView;

    open spec fn view(&self) -> SchemaView {
        SchemaView {
            name: self.name@,
            description: self.description@,
            parameters: self.parameters@,
        }
    }
}

pub open spec fn schema_views(tools: Seq<ToolSchema>) -> Seq<SchemaView> {
    Seq::new(tools.len(), |i: int| tools[i]@)
}

impl ToolSchema {
    pub fn new(name: &str, description: &str, parameters: Json) -> (r: ToolSchema)
        ensures
            r@ == (SchemaView {
                name: name@,
                description: description@,
                parameters: parameters@,
            }),
    {
        ToolSchema { name: name.to_owned(), description: description.to_owned(), parameters }
    }
}

/// The first tool from `i` on with a name; the length if there is none.
pub open spec fn tool_at(tools: Seq<SchemaView>, name: Seq<char>, i: int) -> int
    decreases tools.len() - i,
{
    if i >= tools.len() {
        tools.len() as int
    } else if tools[i].name == name {
        i
    } else {
        tool_at(tools, name, i + 1)
    }
}

/// Whether a tool has the name.
pub open spec fn has_tool(tools: Seq<SchemaView>, name: Seq<char>) -> bool {
    exists|i: int| 0 <= i < tools.len() && (#[trigger] tools[i]).name == name
}

pub proof fn lemma_tool_at(tools: Seq<SchemaView>, name: Seq<char>, i: int)
    requires
        0 <= i <= tools.len(),
    ensures
        i <= tool_at(tools, name, i) <= tools.len(),
        tool_at(tools, name, i) < tools.len() ==> tools[tool_at(tools, name, i)].name == name,
        forall|k: int|
            i <= k < tool_at(tools, name, i) ==> (#[trigger] tools[k]).name != name,
    decreases tools.len() - i,
{
    if i < tools.len() && tools[i].name != name {
        lemma_tool_at(tools, name, i + 1);
    }
}

/// The tools with one more, which takes the place of one with its name.
pub open spec fn registered(tools: Seq<SchemaView>, tool: SchemaView) -> Seq<SchemaView> {
    let k = tool_at(tools, tool.name, 0);
    if k < tools.len() {
        tools.update(k, tool)
    } else {
        tools.push(tool)
    }
}

/// The tools that an agent can call, in the order in which they came.
pub struct InMemoryRegistry {
    pub tools: Vec<ToolSchema>,
}

impl View for InMemoryRegistry {
    type V = Seq<SchemaView>;

    open spec fn view(&self) -> Seq<SchemaView> {
        schema_views(self.tools@)
    }
}

/// What a call of a tool is run with: its arguments, if there is such a
/// tool and its schema takes them.
pub open spec fn dispatched(tools: Seq<SchemaView>, call: ToolCallView) -> Result<
    JsonView,
    ToolErrorView,
> {
    let k = tool_at(tools, call.name, 0);
    if k >= tools.len() {
        Err(ToolErrorView::NotFound(call.name))
    } else {
        match checked_args(call.arguments, schema_check(tools[k].parameters, call.arguments)) {
            Ok(args) => Ok(args),
            Err(e) => Err(ToolErrorView::InvalidArgs(e)),
        }
    }
}

impl InMemoryRegistry {
    pub fn new() -> (r: Self)
        ensures
            r@ == Seq::<SchemaView>::empty(),
    {
        let r = InMemoryRegistry { tools: Vec::new() };
        assert(r@ =~= Seq::<SchemaView>::empty());
        r
    }

    fn place_of(&self, name: &str) -> (r: usize)
        ensures
            r == tool_at(self@, name@, 0),
            r <= self.tools@.len(),
    {
        let mut i: usize = 0;
        while i < self.tools.len()
            invariant
                i <= self.tools@.len(),
                tool_at(self@, name@, 0) == tool_at(self@, name@, i as int),
            decreases self.tools.len() - i,
        {
            assert(self@[i as int] == self.tools@[i as int]@);
            if same(self.tools[i].name.as_str(), name) {
                return i;
            }
            i += 1;
        }
        i
    }

    /// The registry with one more tool, which takes the place of one with
    /// its name.
    pub fn register(self, tool: ToolSchema) -> (r: Self)
        ensures
            r@ == registered(self@, tool@),
    {
        let ghost before = self@;
        let ghost t = tool@;
        let k = self.place_of(tool.name.as_str());
        let mut r = self;
        if k < r.tools.len() {
            r.tools.set(k, tool);
            assert(r@ =~= before.update(k as int, t));
        } else {
            r.tools.push(tool);
            assert(r@ =~= before.push(t));
        }
        r
    }

    /// The tool with a name, if there is one.
    pub fn get(&self, name: &str) -> (r: Option<&ToolSchema>)
        ensures
            match r {
                Some(t) => tool_at(self@, name@, 0) < self@.len() && t@ == self@[tool_at(
                    self@,
                    name@,
                    0,
                )],
                None => tool_at(self@, name@, 0) == self@.len(),
            },
    {
        let k = self.place_of(name);
        if k < self.tools.len() {
            Some(&self.tools[k])
        } else {
            None
        }
    }

    /// All tools as the model knows them.
    pub fn schemas(&self) -> (r: Vec<ToolSchema>)
        ensures
            schema_views(r@) == self@,
    {
        let mut out: Vec<ToolSchema> = Vec::new();
        let mut i: usize = 0;
        while i < self.tools.len()
            invariant
                i <= self.tools@.len(),
                schema_views(out@) == self@.take(i as int),
            decreases self.tools.len() - i,
        {
            let ghost before = schema_views(out@);
            let t = &self.tools[i];
            let c = ToolSchema::new(t.name.as_str(), t.description.as_str(), t.parameters.copy());
            let ghost v = c@;
            out.push(c);
            i += 1;
            assert(schema_views(out@) =~= before.push(v));
            assert(self@.take(i as int) =~= self@.take(i - 1).push(self@[i - 1]));
        }
        assert(self@.take(i as int) =~= self@);
        out
    }

    /// Finds the tool of a call and holds the arguments against its schema:
    /// what to run the tool with, or why it is not run.
    pub fn dispatch_tool(&self, call: &ToolCall) -> (r: Result<Json, ToolError>)
        ensures
            match r {
                Ok(args) => dispatched(self@, call@) == Ok::<JsonView, ToolErrorView>(args@),
                Err(e) => dispatched(self@, call@) == Err::<JsonView, ToolErrorView>(e@),
            },
    {
        let tool = match self.get(call.name.as_str()) {
            Some(t) => t,
            None => {
                return Err(ToolError::NotFound(call.name.clone()));
            },
        };
        match validate_args(&call.arguments, &tool.parameters) {
            Ok(args) => Ok(args),
            Err(e) => Err(ToolError::InvalidArgs(e)),
        }
    }
}

// ---------------------------------------------------------------------
// The built-in tools
// ---------------------------------------------------------------------

pub open spec fn terminal_tool() -> SchemaView {
    SchemaView {
        name: "terminal"@,
        description: TERMINAL_TOOL_DESCRIPTION@,
        parameters: terminal_schema(),
    }
}

pub open spec fn read_file_tool() -> SchemaView {
    SchemaView {
        name: "read_file"@,
        description: READ_FILE_DESCRIPTION@,
        parameters: read_file_schema(),
    }
}

pub open spec fn write_file_tool() -> SchemaView {
    SchemaView {
        name: "write_file"@,
        description: WRITE_FILE_DESCRIPTION@,
        parameters: write_file_schema(),
    }
}

pub open spec fn patch_tool() -> SchemaView {
    SchemaView { name: "patch"@, description: PATCH_DESCRIPTION@, parameters: patch_schema() }
}

pub open spec fn search_files_tool() -> SchemaView {
    SchemaView {
        name: "search_files"@,
        description: SEARCH_FILES_DESCRIPTION@,
        parameters: search_files_schema(),
    }
}

pub open spec fn skills_list_tool() -> SchemaView {
    SchemaView {
        name: "skills_list"@,
        description: SKILLS_LIST_DESCRIPTION@,
        parameters: skills_list_schema(),
    }
}

pub open spec fn skill_view_tool() -> SchemaView {
    SchemaView {
        name: "skill_view"@,
        description: SKILL_VIEW_DESCRIPTION@,
        parameters: skill_view_schema(),
    }
}

/// The built-in tools without those of the toolsets that are switched off.
/// The shell goes by `terminal` and by its old name, `core`.
pub open spec fn builtin_tools(disabled: Seq<Seq<char>>) -> Seq<SchemaView> {
    let a: Seq<SchemaView> = if disabled.contains("terminal"@) || disabled.contains("core"@) {
        Seq::empty()
    } else {
        Seq::empty().push(terminal_tool())
    };
    let b = if disabled.contains("file"@) {
        a
    } else {
        a.push(read_file_tool()).push(write_file_tool()).push(patch_tool()).push(
            search_files_tool(),
        )
    };
    if disabled.contains("skills"@) {
        b
    } else {
        b.push(skills_list_tool()).push(skill_view_tool())
    }
}

proof fn lemma_names_differ()
    ensures
        "terminal"@ != "read_file"@,
        "terminal"@ != "write_file"@,
        "terminal"@ != "patch"@,
        "terminal"@ != "search_files"@,
        "terminal"@ != "skills_list"@,
        "terminal"@ != "skill_view"@,
        "read_file"@ != "write_file"@,
        "read_file"@ != "patch"@,
        "read_file"@ != "search_files"@,
        "read_file"@ != "skills_list"@,
        "read_file"@ != "skill_view"@,
        "write_file"@ != "patch"@,
        "write_file"@ != "search_files"@,
        "write_file"@ != "skills_list"@,
        "write_file"@ != "skill_view"@,
        "patch"@ != "search_files"@,
        "patch"@ != "skills_list"@,
        "patch"@ != "skill_view"@,
        "search_files"@ != "skills_list"@,
        "search_files"@ != "skill_view"@,
        "skills_list"@ != "skill_view"@,
{
    reveal_strlit("terminal");
    reveal_strlit("read_file");
    reveal_strlit("write_file");
    reveal_strlit("patch");
    reveal_strlit("search_files");
    reveal_strlit("skills_list");
    reveal_strlit("skill_view");
    assert("terminal"@.len() == 8);
    assert("read_file"@.len() == 9);
    assert("write_file"@.len() == 10);
    assert("patch"@.len() == 5);
    assert("search_files"@.len() == 12);
    assert("skills_list"@.len() == 11);
    assert("skill_view"@.len() == 10);
    assert("write_file"@[0] == 'w');
    assert("skill_view"@[0] == 's');
}

proof fn lemma_register_new(tools: Seq<SchemaView>, tool: SchemaView)
    requires
        !has_tool(tools, tool.name),
    ensures
        registered(tools, tool) == tools.push(tool),
{
    lemma_tool_at(tools, tool.name, 0);
}

/// The built-in tools. Toolsets can be switched off by name.
pub fn build_registry(disabled_toolsets: &Vec<String>, skills_dir: &str) -> (r: InMemoryRegistry)
    ensures
        r@ == builtin_tools(views(disabled_toolsets@)),
{
    proof {
        lemma_names_differ();
    }
    let mut reg = InMemoryRegistry::new();
    if !holds_text(disabled_toolsets, "terminal") && !holds_text(disabled_toolsets, "core") {
        let t = BashTool::new();
        proof {
            lemma_register_new(reg@, terminal_tool());
        }
        reg = reg.register(ToolSchema::new(t.name(), t.description(), t.parameters_schema()));
    }
    if !holds_text(disabled_toolsets, "file") {
        let read = ReadFileTool::new();
        proof {
            lemma_register_new(reg@, read_file_tool());
        }
        reg =
        reg.register(ToolSchema::new(read.name(), read.description(), read.parameters_schema()));
        let write = WriteFileTool::new();
        proof {
            lemma_register_new(reg@, write_file_tool());
        }
        reg =
        reg.register(
            ToolSchema::new(write.name(), write.description(), write.parameters_schema()),
        );
        let patch = PatchTool::new();
        proof {
            lemma_register_new(reg@, patch_tool());
        }
        reg =
        reg.register(
            ToolSchema::new(patch.name(), patch.description(), patch.parameters_schema()),
        );
        let search = SearchFilesTool::new();
        proof {
            lemma_register_new(reg@, search_files_tool());
        }
        reg =
        reg.register(
            ToolSchema::new(search.name(), search.description(), search.parameters_schema()),
        );
    }
    if !holds_text(disabled_toolsets, "skills") {
        let list = SkillListTool::new(skills_dir.to_owned());
        proof {
            lemma_register_new(reg@, skills_list_tool());
        }
        reg =
        reg.register(ToolSchema::new(list.name(), list.description(), list.parameters_schema()));
        let view = SkillViewTool::new(skills_dir.to_owned());
        proof {
            lemma_register_new(reg@, skill_view_tool());
        }
        reg =
        reg.register(ToolSchema::new(view.name(), view.description(), view.parameters_schema()));
    }
    reg
}

// ---------------------------------------------------------------------
// Laws
// ---------------------------------------------------------------------

/// Whether no two tools have one name.
pub open spec fn names_differ(tools: Seq<SchemaView>) -> bool {
    forall|i: int, j: int|
        0 <= i < j < tools.len() ==> (#[trigger] tools[i]).name != (#[trigger] tools[j]).name
}

/// Registering keeps names apart: the new tool is found under its name, and
/// every other tool under its own as before.
pub proof fn law_registering_keeps_names_apart(tools: Seq<SchemaView>, tool: SchemaView)
    requires
        names_differ(tools),
    ensures
        names_differ(registered(tools, tool)),
        has_tool(registered(tools, tool), tool.name),
        forall|name: Seq<char>|
            name != tool.name ==> #[trigger] has_tool(registered(tools, tool), name) == has_tool(
                tools,
                name,
            ),
{
    lemma_tool_at(tools, tool.name, 0);
    let all = registered(tools, tool);
    let k = tool_at(tools, tool.name, 0);
    assert(all[k] == tool);
    assert forall|name: Seq<char>| name != tool.name implies #[trigger] has_tool(all, name)
        == has_tool(tools, name) by {
        if has_tool(tools, name) {
            let i = choose|i: int| 0 <= i < tools.len() && (#[trigger] tools[i]).name == name;
            assert(all[i] == tools[i]);
        }
        if has_tool(all, name) {
            let i = choose|i: int| 0 <= i < all.len() && (#[trigger] all[i]).name == name;
            assert(i != k);
            assert(tools[i] == all[i]);
        }
    }
}

/// A call is refused as unknown exactly if no tool has its name, and what
/// runs gets the arguments of the call unchanged.
pub proof fn law_only_registered_tools_run(tools: Seq<SchemaView>, call: ToolCallView)
    ensures
        dispatched(tools, call) == Err::<JsonView, ToolErrorView>(
            ToolErrorView::NotFound(call.name),
        ) <==> !has_tool(tools, call.name),
        dispatched(tools, call) matches Ok(args) ==> has_tool(tools, call.name) && args
            == call.arguments,
{
    lemma_tool_at(tools, call.name, 0);
}

/// Switching off a toolset takes its tools away and leaves the others.
pub proof fn law_disabled_toolsets_are_gone(disabled: Seq<Seq<char>>)
    ensures
        names_differ(builtin_tools(disabled)),
        has_tool(builtin_tools(disabled), "terminal"@) == !(disabled.contains("terminal"@)
            || disabled.contains("core"@)),
        has_tool(builtin_tools(disabled), "read_file"@) == !disabled.contains("file"@),
        has_tool(builtin_tools(disabled), "write_file"@) == !disabled.contains("file"@),
        has_tool(builtin_tools(disabled), "patch"@) == !disabled.contains("file"@),
        has_tool(builtin_tools(disabled), "search_files"@) == !disabled.contains("file"@),
        has_tool(builtin_tools(disabled), "skills_list"@) == !disabled.contains("skills"@),
        has_tool(builtin_tools(disabled), "skill_view"@) == !disabled.contains("skills"@),
{
    lemma_names_differ();
    let all = builtin_tools(disabled);
    let a = if disabled.contains("terminal"@) || disabled.contains("core"@) {
        0int
    } else {
        1int
    };
    let b = if disabled.contains("file"@) {
        a
    } else {
        a + 4
    };
    if a == 1 {
        assert(all[0] == terminal_tool());
    }
    if b > a {
        assert(all[a] == read_file_tool());
        assert(all[a + 1] == write_file_tool());
        assert(all[a + 2] == patch_tool());
        assert(all[a + 3] == search_files_tool());
    }
    if !disabled.contains("skills"@) {
        assert(all[b] == skills_list_tool());
        assert(all[b + 1] == skill_view_tool());
    }
}

/// A tool that is registered is the one found under its name; every other
/// tool stays as it is, where it is, and none is lost.
pub proof fn law_registered_tool_is_found(tools: Seq<SchemaView>, tool: SchemaView, i: int)
    ensures
        ({
            let all = registered(tools, tool);
            let at = tool_at(all, tool.name, 0);
            &&& 0 <= at < all.len() && all[at] == tool
            &&& all.len() == if has_tool(tools, tool.name) {
                tools.len()
            } else {
                tools.len() + 1
            }
            &&& 0 <= i < tools.len() && tools[i].name != tool.name ==> all[i] == tools[i]
        }),
{
    let all = registered(tools, tool);
    lemma_tool_at(tools, tool.name, 0);
    lemma_tool_at(all, tool.name, 0);
    let k = tool_at(tools, tool.name, 0);
    let at = tool_at(all, tool.name, 0);
    assert(all[k] == tool);
    if at < k {
        assert(all[at] == tools[at]);
    }
    assert(at == k);
    if k < tools.len() {
        assert(tools[k].name == tool.name);
    }
}

/// A call is held against the schema of the tool that it names: it runs if
/// nothing is wrong, and is refused with what is wrong otherwise.
pub proof fn law_call_is_held_against_its_tool(
    tools: Seq<SchemaView>,
    call: ToolCallView,
    i: int,
    f: Seq<char>,
)
    requires
        names_differ(tools),
        0 <= i < tools.len(),
        tools[i].name == call.name,
    ensures
        ({
            let check = schema_check(tools[i].parameters, call.arguments);
            let r = dispatched(tools, call);
            &&& check == crate::loop_engine::metrics::CheckView::Checked(Seq::empty()) <==> r is Ok
            &&& check == crate::loop_engine::metrics::CheckView::Checked(seq![f]) ==> r == Err::<
                JsonView,
                ToolErrorView,
            >(ToolErrorView::InvalidArgs(f))
            &&& r matches Err(e) ==> e is InvalidArgs
        }),
{
    lemma_tool_at(tools, call.name, 0);
    let k = tool_at(tools, call.name, 0);
    if k != i {
        assert(tools[k].name != tools[i].name);
    }
    crate::loop_engine::metrics::law_every_failure_is_told(
        call.arguments,
        Seq::empty(),
        Seq::empty(),
        f,
    );
    let check = schema_check(tools[i].parameters, call.arguments);
    if let crate::loop_engine::metrics::CheckView::Checked(failures) = check {
        if failures.len() == 0 {
            assert(failures =~= Seq::<Seq<char>>::empty());
        }
    }
}

/// The arguments that a tool cannot do without are those that its schema
/// asks for, and the schema of every tool takes no others than it names.
pub proof fn law_schemas_ask_for_what_is_needed(disabled: Seq<Seq<char>>, i: int)
    requires
        0 <= i < builtin_tools(disabled).len(),
    ensures
        ({
            let t = builtin_tools(disabled)[i];
            &&& t.parameters.text_at("type"@) == Some("object"@)
            &&& t.parameters.get("additionalProperties"@) == Some(JsonView::Bool(false))
            &&& t.name == "terminal"@ ==> t.parameters.get("required"@) == Some(
                crate::json::text_array(seq!["command"@]),
            )
            &&& t.name == "read_file"@ ==> t.parameters.get("required"@) == Some(
                crate::json::text_array(seq!["path"@]),
            )
            &&& t.name == "write_file"@ ==> t.parameters.get("required"@) == Some(
                crate::json::text_array(seq!["path"@, "content"@]),
            )
            &&& t.name == "search_files"@ ==> t.parameters.get("required"@) == Some(
                crate::json::text_array(seq!["pattern"@]),
            )
            &&& t.name == "skill_view"@ ==> t.parameters.get("required"@) == Some(
                crate::json::text_array(seq!["name"@]),
            )
        }),
{
    lemma_names_differ();
    let t = builtin_tools(disabled)[i];
    assert(t == terminal_tool() || t == read_file_tool() || t == write_file_tool() || t
        == patch_tool() || t == search_files_tool() || t == skills_list_tool() || t
        == skill_view_tool());
    reveal_strlit("type");
    reveal_strlit("properties");
    reveal_strlit("required");
    reveal_strlit("additionalProperties");
    assert("type"@.len() == 4 && "properties"@.len() == 10 && "required"@.len() == 8
        && "additionalProperties"@.len() == 20);
}

} // verus!
