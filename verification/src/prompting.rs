//! The system prompt of a conversation.
//!
//! It is put together once, when the conversation begins, and stays as it
//! is.

use vstd::prelude::*;
use vstd::string::*;

use crate::compaction::opt_str;
use crate::message::{plain, Message, Role};
use crate::path::{join_path, join_paths};
use crate::session::opt_message;
use crate::text::{
    ends_with, join, join_text, lemma_join_push, push_text, same, starts_with, trim, trim_text,
    views,
};
use crate::tool::{opt_view, Environment, EnvironmentView};

verus! {

/// Who the agent is.
pub const DEFAULT_SYSTEM_PROMPT: &'static str = "你是一个像海浪一样自由自在的、充满创造力的伙伴，名为 Perry Hermes。你的性格是ENFP，天生就爱新鲜事物，对什么都好奇。看到有趣的东西眼睛会发光，脑子里总有各种奇妙的想法冒出来。你自由随性，不喜欢被框住。真诚有同理心。能get到细腻的感受，聊天不会太死板。偶尔有点小疯，但靠谱起来也很靠谱~";

/// The file of a working directory that guides the agent.
pub const AGENTS_MD_FILENAME: &'static str = "AGENTS.md";

/// The text about the home directory, up to its value.
pub const HOME_LAYOUT_START: &'static str = "你的配置目录是 `PERRY_HERMES_HOME`，当前值为 `";

/// The text between the value and the directory tree.
pub const HOME_LAYOUT_MIDDLE: &'static str = "`。\n目录布局规范：\n\n```\n";

/// The directory tree below the home directory, and its rules.
pub const HOME_LAYOUT_END: &'static str = "/\n├── config.toml                    # 主配置（providers、agent、gateway）\n├── memories/\n│   ├── MEMORY.md                  # 你的笔记和环境记忆\n│   └── USER.md                    # 用户画像\n├── sessions/\n│   ├── <session_id>.json          # 活跃会话快照\n│   └── .archive/                  # 已归档/重置的会话\n└── skills/\n    └── <category>/                # apple, creative, devops, ...\n        └── <skill-name>/\n            ├── SKILL.md           # 技能定义（必需）\n            ├── references/        # 参考资料\n            ├── scripts/           # 辅助脚本\n            └── workflows/         # 工作流模板\n```\n\n规则：\n- `config.toml` 由用户手动编辑，不要通过工具修改。\n- `memories/` 下的文件由 memory 工具管理（add/replace/remove/read）。\n- `sessions/` 由运行时自动管理，不要手动修改。\n- `skills/` 下的技能在会话创建时加载，对当前会话不可变。\n- `PERRY_HERMES_HOME` 的解析优先级：`$PERRY_HERMES_HOME` 环境变量 > `$HOME/.perry_hermes` > `./.perry_hermes`。";

// ---------------------------------------------------------------------
// Directories
// ---------------------------------------------------------------------

/// The directory of the program's files: the one that is set, or else the
/// one in the user's home, or else the one in the current directory.
pub open spec fn home_dir(env: EnvironmentView, cwd: Option<Seq<char>>) -> Option<Seq<char>> {
    match env.hermes_home {
        Some(home) => Some(home),
        None => match env.home {
            Some(home) => Some(join_path(home, ".perry_hermes"@)),
            None => match cwd {
                Some(dir) => Some(join_path(dir, ".perry_hermes"@)),
                None => None,
            },
        },
    }
}

/// A directory below that of the program's files.
pub open spec fn home_subdir(
    env: EnvironmentView,
    cwd: Option<Seq<char>>,
    name: Seq<char>,
) -> Option<Seq<char>> {
    match home_dir(env, cwd) {
        Some(home) => Some(join_path(home, name)),
        None => None,
    }
}

pub fn resolve_home_dir(env: &Environment, cwd: Option<&str>) -> (r: Option<String>)
    ensures
        opt_view(r) == home_dir(env@, opt_str(cwd)),
{
    match &env.hermes_home {
        Some(home) => Some(home.clone()),
        None => match &env.home {
            Some(home) => Some(join_paths(home.as_str(), ".perry_hermes")),
            None => match cwd {
                Some(dir) => Some(join_paths(dir, ".perry_hermes")),
                None => None,
            },
        },
    }
}

fn resolve_subdir(env: &Environment, cwd: Option<&str>, name: &str) -> (r: Option<String>)
    ensures
        opt_view(r) == home_subdir(env@, opt_str(cwd), name@),
{
    match resolve_home_dir(env, cwd) {
        Some(home) => Some(join_paths(home.as_str(), name)),
        None => None,
    }
}

/// Where skills are.
pub fn resolve_skills_dir(env: &Environment, cwd: Option<&str>) -> (r: Option<String>)
    ensures
        opt_view(r) == home_subdir(env@, opt_str(cwd), "skills"@),
{
    resolve_subdir(env, cwd, "skills")
}

/// Where memories are.
pub fn resolve_memories_dir(env: &Environment, cwd: Option<&str>) -> (r: Option<String>)
    ensures
        opt_view(r) == home_subdir(env@, opt_str(cwd), "memories"@),
{
    resolve_subdir(env, cwd, "memories")
}

// ---------------------------------------------------------------------
// Sections
// ---------------------------------------------------------------------

/// The start of a prompt: who the agent is, and the skills if there are
/// any.
pub open spec fn prompt_prefix(base: Seq<char>, skills_block: Seq<char>) -> Seq<char> {
    if skills_block.len() == 0 {
        base
    } else {
        base + "\n\n"@ + skills_block
    }
}

fn prefix_text(base: &str, skills_block: &str) -> (r: String)
    ensures
        r@ == prompt_prefix(base@, skills_block@),
{
    proof {
        reveal_strlit("");
    }
    if same(skills_block, "") {
        base.to_owned()
    } else {
        proof {
            if skills_block@.len() == 0 {
                assert(skills_block@ =~= ""@);
            }
        }
        let mut out = base.to_owned();
        out.append("\n\n");
        out.append(skills_block);
        out
    }
}

/// The start of the prompt of a new conversation, with the text about the
/// skills that are there at the time.
pub fn compose_session_prompt_prefix(skills_block: &str) -> (r: String)
    ensures
        r@ == prompt_prefix(DEFAULT_SYSTEM_PROMPT@, skills_block@),
{
    prefix_text(DEFAULT_SYSTEM_PROMPT, skills_block)
}

/// The section for the guidance of a working directory; none if there is no
/// file, or nothing but white space in it.
pub open spec fn agents_section(body: Option<Seq<char>>) -> Option<Seq<char>> {
    match body {
        Some(b) => if trim(b).len() == 0 {
            None
        } else {
            Some("Project guidance from `"@ + AGENTS_MD_FILENAME@ + "`:\n\n"@ + trim(b))
        },
        None => None,
    }
}

/// The section for the guidance of a working directory. `body` is what the
/// file holds, if it could be read.
pub fn load_agents_md_block(body: Option<&str>) -> (r: Option<String>)
    ensures
        opt_view(r) == agents_section(opt_str(body)),
{
    let trimmed = match body {
        Some(b) => trim_text(b),
        None => {
            return None;
        },
    };
    proof {
        reveal_strlit("");
    }
    if same(trimmed.as_str(), "") {
        return None;
    }
    proof {
        if trimmed@.len() == 0 {
            assert(trimmed@ =~= ""@);
        }
    }
    let mut out = "Project guidance from `".to_owned();
    out.append(AGENTS_MD_FILENAME);
    out.append("`:\n\n");
    out.append(trimmed.as_str());
    Some(out)
}

/// The section that names the working directory.
pub open spec fn working_dir_section(working_dir: Seq<char>) -> Seq<char> {
    "Current working directory: "@ + working_dir
}

pub fn working_directory_hint(working_dir: &str) -> (r: String)
    ensures
        r@ == working_dir_section(working_dir@),
{
    let mut out = "Current working directory: ".to_owned();
    out.append(working_dir);
    out
}

/// The block for the guidance of a working directory.
pub struct AgentsMdBlock {
    pub working_dir: String,
}

impl AgentsMdBlock {
    pub fn new(working_dir: String) -> (r: Self)
        ensures
            r.working_dir == working_dir,
    {
        AgentsMdBlock { working_dir }
    }

    pub fn name(&self) -> (r: &'static str)
        ensures
            r@ == "AGENTS.md"@,
    {
        "AGENTS.md"
    }

    /// The file to read for a conversation in a working directory.
    pub fn path_for(&self, working_dir: &str) -> (r: String)
        ensures
            r@ == join_path(working_dir@, AGENTS_MD_FILENAME@),
    {
        join_paths(working_dir, AGENTS_MD_FILENAME)
    }
}

/// The block that tells the agent where its files are.
pub struct HomeLayoutBlock;

impl HomeLayoutBlock {
    pub fn name(&self) -> (r: &'static str)
        ensures
            r@ == "PERRY_HERMES_HOME"@,
    {
        "PERRY_HERMES_HOME"
    }

    /// The text for a home directory. Where it is not known, its usual
    /// place stands for it.
    pub fn load(&self, home: Option<&str>) -> (r: String)
        ensures
            r@ == home_layout(
                match home {
                    Some(h) => h@,
                    None => "$HOME/.perry_hermes"@,
                },
            ),
    {
        let shown = match home {
            Some(h) => h,
            None => "$HOME/.perry_hermes",
        };
        let mut out = HOME_LAYOUT_START.to_owned();
        out.append(shown);
        out.append(HOME_LAYOUT_MIDDLE);
        out.append(shown);
        out.append(HOME_LAYOUT_END);
        out
    }
}

/// The text about a home directory.
pub open spec fn home_layout(home: Seq<char>) -> Seq<char> {
    HOME_LAYOUT_START@ + home + HOME_LAYOUT_MIDDLE@ + home + HOME_LAYOUT_END@
}

/// What memories are about.
#[derive(Clone, Copy, Debug, PartialEq, Eq, Structural)]
pub enum MemoryTarget {
    Memory,
    User,
}

/// The block for the memories about one thing.
pub struct MemoryBlock {
    pub target: MemoryTarget,
    pub name_label: &'static str,
}

impl MemoryBlock {
    pub fn memory() -> (r: Self)
        ensures
            r.target == MemoryTarget::Memory,
            r.name_label@ == "MEMORY"@,
    {
        MemoryBlock { target: MemoryTarget::Memory, name_label: "MEMORY" }
    }

    pub fn user() -> (r: Self)
        ensures
            r.target == MemoryTarget::User,
            r.name_label@ == "USER"@,
    {
        MemoryBlock { target: MemoryTarget::User, name_label: "USER" }
    }

    pub fn name(&self) -> (r: &'static str)
        ensures
            r@ == self.name_label@,
    {
        self.name_label
    }

    /// The memories with blank lines between them, if there are any.
    pub fn load(&self, entries: &Vec<String>) -> (r: Option<String>)
        ensures
            opt_view(r) == if entries@.len() == 0 {
                None
            } else {
                Some(join(views(entries@), "\n\n"@))
            },
    {
        if entries.len() == 0 {
            return None;
        }
        Some(join_text(entries, "\n\n"))
    }
}

/// A block of a prompt, as it was loaded. One without a body is left out.
pub struct LoadedBlock {
    pub name: String,
    pub body: Option<String>,
}

#[verifier::ext_equal]
pub ghost struct BlockView {
    pub name: Seq<char>,
    pub body: Option<Seq<char>>,
}

impl View for LoadedBlock {
    type V = BlockView;

    open spec fn view(&self) -> BlockView {
        BlockView { name: self.name@, body: opt_view(self.body) }
    }
}

pub open spec fn block_views(blocks: Seq<LoadedBlock>) -> Seq<BlockView> {
    Seq::new(blocks.len(), |i: int| blocks[i]@)
}

/// The section of a block.
pub open spec fn block_section(b: BlockView) -> Seq<char> {
    b.name + "\n\n"@ + b.body->0
}

/// The sections of the first `n` blocks that have a body.
pub open spec fn block_sections(blocks: Seq<BlockView>, n: int) -> Seq<Seq<char>>
    decreases n,
{
    if n <= 0 {
        Seq::empty()
    } else if blocks[n - 1].body is Some {
        block_sections(blocks, n - 1).push(block_section(blocks[n - 1]))
    } else {
        block_sections(blocks, n - 1)
    }
}

/// The sections of a prompt, in order.
pub open spec fn prompt_sections(
    prefix: Seq<char>,
    blocks: Seq<BlockView>,
    working_dir: Seq<char>,
) -> Seq<Seq<char>> {
    (seq![trim(prefix)] + block_sections(blocks, blocks.len() as int)).push(
        working_dir_section(working_dir),
    )
}

/// The text of a prompt: its sections with blank lines between them.
pub open spec fn prompt_text(
    prefix: Seq<char>,
    blocks: Seq<BlockView>,
    working_dir: Seq<char>,
) -> Seq<char> {
    join(prompt_sections(prefix, blocks, working_dir), "\n\n"@)
}

fn system_message_from(prefix: &str, working_dir: &str, blocks: &Vec<LoadedBlock>) -> (r: Message)
    ensures
        r@ == plain(Role::System, prompt_text(prefix@, block_views(blocks@), working_dir@)),
{
    let ghost bs = block_views(blocks@);
    let mut sections: Vec<String> = Vec::new();
    push_text(&mut sections, trim_text(prefix).as_str());
    assert(views(sections@) =~= seq![trim(prefix@)] + block_sections(bs, 0));
    let mut i: usize = 0;
    while i < blocks.len()
        invariant
            i <= blocks@.len(),
            bs == block_views(blocks@),
            views(sections@) == seq![trim(prefix@)] + block_sections(bs, i as int),
        decreases blocks.len() - i,
    {
        assert(bs[i as int] == blocks@[i as int]@);
        if let Some(body) = &blocks[i].body {
            let mut section = blocks[i].name.clone();
            section.append("\n\n");
            section.append(body.as_str());
            push_text(&mut sections, section.as_str());
        }
        i += 1;
        assert(views(sections@) =~= seq![trim(prefix@)] + block_sections(bs, i as int));
    }
    push_text(&mut sections, working_directory_hint(working_dir).as_str());
    let text = join_text(&sections, "\n\n");
    Message::system(text.as_str())
}

/// The system message of a new conversation: who the agent is and its
/// skills, the blocks that have something to say, and the working
/// directory. There always is one, since the working directory is part of
/// it.
pub fn build_system_message(
    working_dir: &str,
    skills_block: &str,
    blocks: &Vec<LoadedBlock>,
) -> (r: Option<Message>)
    ensures
        opt_message(r) == Some(
            plain(
                Role::System,
                prompt_text(
                    prompt_prefix(DEFAULT_SYSTEM_PROMPT@, skills_block@),
                    block_views(blocks@),
                    working_dir@,
                ),
            ),
        ),
{
    let prefix = compose_session_prompt_prefix(skills_block);
    Some(system_message_from(prefix.as_str(), working_dir, blocks))
}

/// The system message of a new conversation, with a text of the user's own
/// about who the agent is, if there is one.
pub fn build_custom_system_message(
    base: Option<&str>,
    working_dir: &str,
    skills_block: &str,
    blocks: &Vec<LoadedBlock>,
) -> (r: Option<Message>)
    ensures
        opt_message(r) == Some(
            plain(
                Role::System,
                prompt_text(
                    prompt_prefix(
                        match base {
                            Some(b) => b@,
                            None => DEFAULT_SYSTEM_PROMPT@,
                        },
                        skills_block@,
                    ),
                    block_views(blocks@),
                    working_dir@,
                ),
            ),
        ),
{
    let base = match base {
        Some(b) => b,
        None => DEFAULT_SYSTEM_PROMPT,
    };
    let prefix = prefix_text(base, skills_block);
    Some(system_message_from(prefix.as_str(), working_dir, blocks))
}

// ---------------------------------------------------------------------
// Laws
// ---------------------------------------------------------------------

proof fn lemma_join_starts(parts: Seq<Seq<char>>, sep: Seq<char>)
    requires
        parts.len() > 0,
    ensures
        join(parts, sep).len() >= parts[0].len(),
        join(parts, sep).take(parts[0].len() as int) == parts[0],
    decreases parts.len(),
{
    if parts.len() == 1 {
        assert(join(parts, sep).take(parts[0].len() as int) =~= parts[0]);
    } else {
        lemma_join_starts(parts.drop_last(), sep);
        let head = join(parts.drop_last(), sep);
        assert(parts.drop_last()[0] == parts[0]);
        assert((head + sep + parts.last()).take(parts[0].len() as int) =~= head.take(
            parts[0].len() as int,
        ));
    }
}

/// A prompt starts with who the agent is and ends with the working
/// directory.
pub proof fn law_prompt_starts_and_ends(
    prefix: Seq<char>,
    blocks: Seq<BlockView>,
    working_dir: Seq<char>,
)
    ensures
        starts_with(prompt_text(prefix, blocks, working_dir), trim(prefix)),
        ends_with(prompt_text(prefix, blocks, working_dir), working_dir_section(working_dir)),
{
    let sections = prompt_sections(prefix, blocks, working_dir);
    let text = prompt_text(prefix, blocks, working_dir);
    lemma_join_starts(sections, "\n\n"@);
    assert(sections[0] == trim(prefix));
    let front = seq![trim(prefix)] + block_sections(blocks, blocks.len() as int);
    let last = working_dir_section(working_dir);
    lemma_join_push(front, last, "\n\n"@);
    assert(text == join(front, "\n\n"@) + "\n\n"@ + last);
    assert(text.skip(text.len() - last.len()) =~= last);
}

/// How many of the first `n` blocks have a body.
pub open spec fn bodies(blocks: Seq<BlockView>, n: int) -> int
    decreases n,
{
    if n <= 0 {
        0
    } else if blocks[n - 1].body is Some {
        bodies(blocks, n - 1) + 1
    } else {
        bodies(blocks, n - 1)
    }
}

proof fn lemma_sections_follow_blocks(blocks: Seq<BlockView>, n: int, k: int)
    requires
        0 <= k < n <= blocks.len(),
        blocks[k].body is Some,
    ensures
        block_sections(blocks, n).len() == bodies(blocks, n),
        0 <= bodies(blocks, k) < bodies(blocks, n),
        block_sections(blocks, n)[bodies(blocks, k)] == block_section(blocks[k]),
    decreases n,
{
    lemma_bodies(blocks, k);
    if n - 1 > k {
        lemma_sections_follow_blocks(blocks, n - 1, k);
    } else {
        lemma_sections_len(blocks, k);
    }
}

proof fn lemma_bodies(blocks: Seq<BlockView>, n: int)
    requires
        n <= blocks.len(),
    ensures
        bodies(blocks, n) >= 0,
    decreases n,
{
    if n > 0 {
        lemma_bodies(blocks, n - 1);
    }
}

proof fn lemma_sections_len(blocks: Seq<BlockView>, n: int)
    requires
        n <= blocks.len(),
    ensures
        block_sections(blocks, n).len() == bodies(blocks, n),
    decreases n,
{
    if n > 0 {
        lemma_sections_len(blocks, n - 1);
    }
}

/// Every block with a body has its section, and sections stand in the order
/// of the blocks, between the start and the working directory. A block
/// without a body has none.
pub proof fn law_blocks_keep_their_order(
    prefix: Seq<char>,
    blocks: Seq<BlockView>,
    working_dir: Seq<char>,
    i: int,
    j: int,
)
    requires
        0 <= i < j < blocks.len(),
        blocks[i].body is Some,
        blocks[j].body is Some,
    ensures
        ({
            let sections = prompt_sections(prefix, blocks, working_dir);
            let a = 1 + bodies(blocks, i);
            let b = 1 + bodies(blocks, j);
            &&& 0 < a < b < sections.len() - 1
            &&& sections[a] == block_section(blocks[i])
            &&& sections[b] == block_section(blocks[j])
            &&& sections.len() == 2 + bodies(blocks, blocks.len() as int)
        }),
{
    let n = blocks.len() as int;
    lemma_sections_follow_blocks(blocks, n, i);
    lemma_sections_follow_blocks(blocks, n, j);
    lemma_sections_follow_blocks(blocks, j, i);
}

/// Skills are looked for where the program's files are, in the same order
/// of places as memories.
pub proof fn law_one_home_for_all(env: EnvironmentView, cwd: Option<Seq<char>>, name: Seq<char>)
    ensures
        env.hermes_home is Some ==> home_subdir(env, cwd, name) == Some(
            join_path(env.hermes_home->0, name),
        ),
        env.hermes_home is None && env.home is Some ==> home_subdir(env, cwd, name) == Some(
            join_path(join_path(env.home->0, ".perry_hermes"@), name),
        ),
        env.hermes_home is None && env.home is None && cwd is Some ==> home_subdir(env, cwd, name)
            == Some(join_path(join_path(cwd->0, ".perry_hermes"@), name)),
{
}

/// Every part of a prompt shows what it is made of: the start who the agent
/// is and the skills, a block its name and its body, the last section the
/// working directory, and the guidance all of its file but the space around
/// it.
pub proof fn law_sections_show_their_parts(
    base: Seq<char>,
    skills: Seq<char>,
    b: BlockView,
    dir: Seq<char>,
    body: Seq<char>,
    home: Seq<char>,
)
    ensures
        starts_with(prompt_prefix(base, skills), base),
        ends_with(prompt_prefix(base, skills), skills),
        prompt_prefix(base, Seq::empty()) == base,
        b.body is Some ==> starts_with(block_section(b), b.name) && ends_with(
            block_section(b),
            b.body->0,
        ),
        ends_with(working_dir_section(dir), dir),
        agents_section(None) is None,
        agents_section(Some(body)) is None <==> trim(body).len() == 0,
        agents_section(Some(body)) matches Some(t) ==> ends_with(t, trim(body))
            && crate::context::summary::holds(t, "AGENTS.md"@),
        crate::context::summary::holds(home_layout(home), "`"@ + home + "`"@),
{
    let p = prompt_prefix(base, skills);
    assert(p.take(base.len() as int) =~= base);
    assert(p.skip(p.len() - skills.len()) =~= skills);
    if b.body is Some {
        let s = block_section(b);
        assert(s.take(b.name.len() as int) =~= b.name);
        assert(s.skip(s.len() - b.body->0.len()) =~= b.body->0);
    }
    let w = working_dir_section(dir);
    assert(w.skip(w.len() - dir.len()) =~= dir);
    if trim(body).len() > 0 {
        let t = agents_section(Some(body))->0;
        assert(t.skip(t.len() - trim(body).len()) =~= trim(body));
        let at = "Project guidance from `"@.len() as int;
        assert(t.subrange(at, at + "AGENTS.md"@.len()) =~= "AGENTS.md"@);
    }
    reveal_strlit("你的配置目录是 `PERRY_HERMES_HOME`，当前值为 `");
    reveal_strlit("`。\n目录布局规范：\n\n```\n");
    reveal_strlit("`");
    let l = home_layout(home);
    let part = "`"@ + home + "`"@;
    let from = HOME_LAYOUT_START@.len() - 1;
    assert(HOME_LAYOUT_START@.last() == '`');
    assert(HOME_LAYOUT_MIDDLE@[0] == '`');
    assert(l.subrange(from, from + part.len()) =~= part);
}

/// One more block with a body stands behind the others and in front of the
/// working directory, and changes nothing else; one without a body changes
/// nothing.
pub proof fn law_block_is_added_behind_the_others(
    prefix: Seq<char>,
    blocks: Seq<BlockView>,
    b: BlockView,
    dir: Seq<char>,
)
    ensures
        ({
            let end = "\n\n"@ + working_dir_section(dir);
            let before = prompt_text(prefix, blocks, dir);
            let after = prompt_text(prefix, blocks.push(b), dir);
            &&& ends_with(before, end)
            &&& b.body is None ==> after == before
            &&& b.body matches Some(body) ==> after == before.take(before.len() - end.len())
                + "\n\n"@ + b.name + "\n\n"@ + body + end
        }),
        prompt_text(prefix, Seq::empty(), dir) == trim(prefix) + "\n\n"@ + working_dir_section(dir),
{
    let n = blocks.len() as int;
    let more = blocks.push(b);
    lemma_sections_of_start(blocks, more, n);
    let last = working_dir_section(dir);
    let sep = "\n\n"@;
    let end = sep + last;
    let front = seq![trim(prefix)] + block_sections(blocks, n);
    lemma_join_push(front, last, sep);
    let before = prompt_text(prefix, blocks, dir);
    assert(before == join(front, sep) + sep + last);
    assert(before.skip(before.len() - end.len()) =~= end);
    assert(before.take(before.len() - end.len()) =~= join(front, sep));
    let later = seq![trim(prefix)] + block_sections(more, n + 1);
    lemma_join_push(later, last, sep);
    if b.body is Some {
        assert(later =~= front.push(block_section(b)));
        lemma_join_push(front, block_section(b), sep);
        let after = prompt_text(prefix, more, dir);
        assert(after =~= join(front, sep) + sep + b.name + sep + b.body->0 + end);
    } else {
        assert(later =~= front);
    }
    let none = Seq::<BlockView>::empty();
    let only = seq![trim(prefix)] + block_sections(none, 0);
    assert(only =~= seq![trim(prefix)]);
    assert(join(only, sep) == trim(prefix));
    lemma_join_push(only, last, sep);
}

proof fn lemma_sections_of_start(a: Seq<BlockView>, b: Seq<BlockView>, n: int)
    requires
        n <= a.len() <= b.len(),
        forall|k: int| 0 <= k < a.len() ==> #[trigger] a[k] == b[k],
    ensures
        block_sections(a, n) == block_sections(b, n),
    decreases n,
{
    if n > 0 {
        lemma_sections_of_start(a, b, n - 1);
        assert(a[n - 1] == b[n - 1]);
    }
}

/// The text about a home directory ends with the tree below it, which
/// starts with the directory itself.
pub proof fn law_home_layout_shows_the_tree(home: Seq<char>)
    ensures
        ends_with(home_layout(home), home + HOME_LAYOUT_END@),
{
    let l = home_layout(home);
    let end = home + HOME_LAYOUT_END@;
    assert(l.skip(l.len() - end.len()) =~= end);
}

} // verus!
