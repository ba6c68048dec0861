//! An agent with a system prompt of the user's own.

use vstd::prelude::*;
use vstd::string::*;

use crate::config::{provider_fault, resolved, ConfigError, PerryHermesConfig};
use crate::loop_engine::agent_loop::{is_agent_of, AgentLoop};
use crate::loop_engine::run::ContextWindow;
use crate::message::{plain, Message, MessageView, Role};
use crate::prompting::{
    block_views, build_custom_system_message, prompt_prefix, prompt_text, LoadedBlock,
    DEFAULT_SYSTEM_PROMPT,
};
use crate::session::{new_session, opt_message, AgentSession};
use crate::tool::opt_view;

verus! {

/// An agent and what its user says about who it is. Skills, guidance and
/// the working directory are added when a conversation begins.
pub struct AIAgent {
    pub agent_loop: AgentLoop,
    pub system_prompt: Option<String>,
}

/// The system message of a conversation with an agent.
pub open spec fn custom_system_message(
    system_prompt: Option<Seq<char>>,
    working_dir: Seq<char>,
    skills_block: Seq<char>,
    blocks: Seq<LoadedBlock>,
) -> MessageView {
    let base = match system_prompt {
        Some(p) => p,
        None => DEFAULT_SYSTEM_PROMPT@,
    };
    plain(
        Role::System,
        prompt_text(prompt_prefix(base, skills_block), block_views(blocks), working_dir),
    )
}

impl AIAgent {
    /// The agent of some settings. `api_key` is the value of the variable
    /// that the provider names for its key, `threshold` the prompt tokens
    /// from which on a history is compressed.
    pub fn from_config(
        config: &PerryHermesConfig,
        system_prompt: Option<String>,
        api_key: &Option<String>,
        threshold: u64,
        skills_dir: &str,
    ) -> (r: Result<Self, ConfigError>)
        ensures
            match resolved(*config) {
                Err(e) => r is Err && r->Err_0@ == e,
                Ok(p) => match provider_fault(p, opt_view(*api_key)) {
                    Some(e) => r is Err && r->Err_0@ == e,
                    None => r is Ok && r->Ok_0.system_prompt == system_prompt && is_agent_of(
                        r->Ok_0.agent_loop,
                        config.agent,
                        Some(ContextWindow { max_tokens: p.context_window_size, threshold }),
                    ),
                },
            },
    {
        match AgentLoop::from_config(config, api_key, threshold, skills_dir) {
            Ok(agent_loop) => Ok(AIAgent { agent_loop, system_prompt }),
            Err(e) => Err(e),
        }
    }

    /// The agent of some settings, with a provider of the caller's own.
    pub fn new(
        config: &PerryHermesConfig,
        system_prompt: Option<String>,
        threshold: u64,
        skills_dir: &str,
    ) -> (r: Self)
        ensures
            r.system_prompt == system_prompt,
            is_agent_of(
                r.agent_loop,
                config.agent,
                match resolved(*config) {
                    Ok(p) => Some(ContextWindow { max_tokens: p.context_window_size, threshold }),
                    Err(_) => None,
                },
            ),
    {
        AIAgent { agent_loop: AgentLoop::new(config, threshold, skills_dir), system_prompt }
    }

    /// The system message of a conversation in a working directory.
    pub fn system_message_for(
        &self,
        working_dir: &str,
        skills_block: &str,
        blocks: &Vec<LoadedBlock>,
    ) -> (r: Option<Message>)
        ensures
            opt_message(r) == Some(
                custom_system_message(
                    opt_view(self.system_prompt),
                    working_dir@,
                    skills_block@,
                    blocks@,
                ),
            ),
    {
        let base = match &self.system_prompt {
            Some(p) => Some(p.as_str()),
            None => None,
        };
        build_custom_system_message(base, working_dir, skills_block, blocks)
    }

    /// A new conversation. Its system message is put together now and stays
    /// as it is.
    pub fn new_session(
        &self,
        session_id: &str,
        working_dir: &str,
        skills_block: &str,
        blocks: &Vec<LoadedBlock>,
    ) -> (r: AgentSession)
        ensures
            r@ == new_session(
                session_id@,
                working_dir@,
                Some(
                    custom_system_message(
                        opt_view(self.system_prompt),
                        working_dir@,
                        skills_block@,
                        blocks@,
                    ),
                ),
            ),
    {
        let system_message = self.system_message_for(working_dir, skills_block, blocks);
        AgentSession::new(session_id, working_dir, system_message)
    }
}

} // verus!
