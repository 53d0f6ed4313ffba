//! Verified core of the cake coding assistant: the Bash command guard, the
//! HTTP retry policy, the Responses API request and reply handling, provider
//! headers and routing, tool-call scheduling rules, skill activation, the
//! shaping of Bash output and the sandbox diagnostics of failed commands.
pub mod text;
pub mod bash_safety;
pub mod retry;
pub mod duplicate_guard;
pub mod skill_dedup;
pub mod bash_output;
pub mod provider;
pub mod responses;
pub mod bash_session;
pub mod sandbox_scan;
pub mod bash_call;
pub mod judge_gate;
pub mod compensation;
