//! Records the library hands out: agents, sessions, health and metrics.
use vstd::prelude::*;

verus! {

/// One stored or live session of an agent.
#[derive(Debug, PartialEq, Eq)]
pub struct SessionInfo {
    pub id: String,
    pub label: Option<String>,
    pub status: String,
    pub model: Option<String>,
    pub channel: Option<String>,
}

/// Whether the agent gateway is running, with its sessions.
#[derive(Debug, PartialEq, Eq)]
pub struct GatewayStatus {
    pub active: bool,
    pub sessions: Vec<SessionInfo>,
}

/// An agent and its configured identity.
#[derive(Debug, PartialEq, Eq)]
pub struct AgentInfo {
    pub id: String,
    pub identity_name: Option<String>,
    pub identity_emoji: Option<String>,
}

/// Activity of one session.
#[derive(Debug, PartialEq, Eq)]
pub struct SessionHealth {
    pub key: String,
    pub active: bool,
}

/// Activity of an agent and its sessions.
#[derive(Debug, PartialEq, Eq)]
pub struct AgentHealth {
    pub agent_id: String,
    pub active: bool,
    pub sessions: Vec<SessionHealth>,
}

/// Health of all agents, and whether the local gateway process is alive.
#[derive(Debug, PartialEq, Eq)]
pub struct HealthResult {
    pub agents: Vec<AgentHealth>,
    pub gateway_alive: bool,
}

/// How often a tool was called.
#[derive(Debug, PartialEq, Eq)]
pub struct ToolCallStat {
    pub name: String,
    pub count: usize,
}

/// A recent tool call or text reply of an agent.
#[derive(Debug, PartialEq, Eq)]
pub struct RecentAction {
    /// "tool" or "text"
    pub action_type: String,
    /// tool name (for tool) or text snippet (for text)
    pub summary: String,
    pub detail: Option<String>,
    pub timestamp: Option<String>,
}

/// A custom pet found in the user's pets directory.
#[derive(Debug, PartialEq, Eq)]
pub struct CodexPetMeta {
    pub id: String,
    pub display_name: String,
    pub description: String,
    pub spritesheet_url: String,
}

/// A session as listed in the mini window.
#[derive(Debug, PartialEq, Eq)]
pub struct MiniSessionInfo {
    pub key: String,
    pub agent_id: String,
    pub session_id: String,
    pub label: String,
    pub channel: Option<String>,
    pub updated_at: u64,
    pub active: bool,
    pub last_user_msg: Option<String>,
    pub last_assistant_msg: Option<String>,
    pub session_file: Option<String>,
}

/// One message of a conversation.
#[derive(Debug, PartialEq, Eq)]
pub struct ChatMessage {
    pub role: String,
    pub text: String,
    pub timestamp: Option<String>,
}

/// Activity and last messages of a session.
#[derive(Debug, PartialEq, Eq)]
pub struct SessionPreview {
    pub active: bool,
    pub last_user_msg: Option<String>,
    pub last_assistant_msg: Option<String>,
}

/// The value `gatewayAlive` takes when a record leaves it out.
pub fn default_true() -> (r: bool)
    ensures
        r,
{
    true
}

/// Views of optional strings.
pub open spec fn opt_view(o: Option<String>) -> Option<Seq<char>> {
    match o {
        Some(s) => Some(s@),
        None => None,
    }
}

} // verus!
