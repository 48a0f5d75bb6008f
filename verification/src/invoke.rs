//! The decisions of forwarding one tool call from the gateway to the node
//! that advertised the tool: which step comes next, what the gateway does,
//! and what the agent is told when the call fails.

use vstd::prelude::*;

verus! {

/// Seconds the gateway waits for a node's reply before giving up.
pub const INVOKE_TIMEOUT_SECS: u64 = 300;

/// Where a forwarded tool call stands.
#[derive(Debug, Clone, Copy, PartialEq, Eq, Structural)]
pub enum InvokeStep {
    /// The node's connection is being looked up.
    LookupNode,
    /// The invoke request is being sent over that connection.
    Deliver,
    /// The request is pending; the gateway waits for the reply.
    AwaitReply,
    /// The call has ended, with a reply or with an error.
    Done,
}

/// What the gateway learned from the last thing it did.
pub enum InvokeEvent {
    /// The node is connected, over the connection with this id.
    NodeFound(String),
    /// No node of that id is connected.
    NodeMissing,
    /// The node's connection is no longer among the clients.
    ClientMissing,
    /// The request could not be written to the connection.
    SendFailed,
    /// The request was written to the connection.
    Sent,
    /// The node replied.
    Replied,
    /// The reply channel was dropped before any reply.
    Cancelled,
    /// No reply came in time.
    TimedOut,
}

/// What the gateway does next.
pub enum InvokeAction {
    /// Send the event `event` (a `node.invoke.request`) over the connection,
    /// carrying `invoke_id`, the node's own tool name as `command` and the
    /// agent's parameters as `args`.
    Send {
        conn_id: String,
        event: String,
        invoke_id: String,
        command: String,
        args: serde_json::Value,
    },
    /// Register the request `invoke_id` as pending and wait at most `timeout_secs`.
    AwaitReply { invoke_id: String, timeout_secs: u64 },
    /// Hand the node's reply to the agent.
    Finish,
    /// End the call with this error; when `drop_pending` holds, first
    /// remove the pending request.
    Fail { message: String, drop_pending: bool },
    /// The event does not belong to the current step; nothing changes.
    Ignore,
}

/// The order of the steps: each handled event moves to a later one.
pub open spec fn step_rank(s: InvokeStep) -> nat {
    match s {
        InvokeStep::LookupNode => 0,
        InvokeStep::Deliver => 1,
        InvokeStep::AwaitReply => 2,
        InvokeStep::Done => 3,
    }
}

/// `Node '<node_id>' is offline. Tool unavailable.`
pub open spec fn offline_message(node_id: Seq<char>) -> Seq<char> {
    "Node '"@ + node_id + "' is offline. Tool unavailable."@
}

/// The event name of a tool call sent to a node.
pub open spec fn invoke_event_name() -> Seq<char> {
    "node.invoke.request"@
}

/// One tool call forwarded to a node.
pub struct ToolInvocation {
    /// The node that advertised the tool.
    pub node_id: String,
    /// The node's own name of the tool.
    pub tool_name: String,
    /// The id that pairs the node's reply with this call.
    pub invoke_id: String,
    /// The parameters the agent passed.
    pub params: serde_json::Value,
    pub step: InvokeStep,
}

impl ToolInvocation {
    /// A call of `tool_name` (the node's own name of the tool) on `node_id`
    /// with `params`, identified by `invoke_id`; the gateway starts by looking
    /// up the node's connection.
    pub fn new(node_id: String, tool_name: String, invoke_id: String, params: serde_json::Value) -> (r:
        Self)
        ensures
            r.node_id == node_id,
            r.tool_name == tool_name,
            r.invoke_id == invoke_id,
            r.params == params,
            r.step == InvokeStep::LookupNode,
    {
        ToolInvocation { node_id, tool_name, invoke_id, params, step: InvokeStep::LookupNode }
    }

    /// Take the outcome of the last action and decide the next one.
    pub fn handle(&mut self, event: InvokeEvent) -> (r: InvokeAction)
        ensures
            final(self).node_id == old(self).node_id,
            final(self).tool_name == old(self).tool_name,
            final(self).invoke_id == old(self).invoke_id,
            final(self).params == old(self).params,
            match (old(self).step, event) {
                (InvokeStep::LookupNode, InvokeEvent::NodeFound(conn)) => {
                    &&& final(self).step == InvokeStep::Deliver
                    &&& r matches InvokeAction::Send { conn_id, event, invoke_id, command, args }
                    &&& conn_id == conn
                    &&& event@ == invoke_event_name()
                    &&& invoke_id@ == old(self).invoke_id@
                    &&& command@ == old(self).tool_name@
                    &&& args == old(self).params
                },
                (InvokeStep::LookupNode, InvokeEvent::NodeMissing) => {
                    &&& final(self).step == InvokeStep::Done
                    &&& r matches InvokeAction::Fail { message, drop_pending }
                    &&& message@ == offline_message(old(self).node_id@)
                    &&& !drop_pending
                },
                (InvokeStep::Deliver, InvokeEvent::ClientMissing) => {
                    &&& final(self).step == InvokeStep::Done
                    &&& r matches InvokeAction::Fail { message, drop_pending }
                    &&& message@ == "node connection lost"@
                    &&& !drop_pending
                },
                (InvokeStep::Deliver, InvokeEvent::SendFailed) => {
                    &&& final(self).step == InvokeStep::Done
                    &&& r matches InvokeAction::Fail { message, drop_pending }
                    &&& message@ == "failed to send tool invoke to node"@
                    &&& !drop_pending
                },
                (InvokeStep::Deliver, InvokeEvent::Sent) => {
                    &&& final(self).step == InvokeStep::AwaitReply
                    &&& r matches InvokeAction::AwaitReply { invoke_id, timeout_secs }
                    &&& invoke_id@ == old(self).invoke_id@
                    &&& timeout_secs == INVOKE_TIMEOUT_SECS
                },
                (InvokeStep::AwaitReply, InvokeEvent::Replied) => {
                    &&& final(self).step == InvokeStep::Done
                    &&& r == InvokeAction::Finish
                },
                (InvokeStep::AwaitReply, InvokeEvent::Cancelled) => {
                    &&& final(self).step == InvokeStep::Done
                    &&& r matches InvokeAction::Fail { message, drop_pending }
                    &&& message@ == "node tool invoke cancelled"@
                    &&& !drop_pending
                },
                (InvokeStep::AwaitReply, InvokeEvent::TimedOut) => {
                    &&& final(self).step == InvokeStep::Done
                    &&& r matches InvokeAction::Fail { message, drop_pending }
                    &&& message@ == "node tool invoke timeout after 300s"@
                    &&& drop_pending
                },
                _ => {
                    &&& final(self).step == old(self).step
                    &&& r == InvokeAction::Ignore
                },
            },
            r !is Ignore ==> step_rank(final(self).step) > step_rank(old(self).step),
    {
        match (self.step, event) {
            (InvokeStep::LookupNode, InvokeEvent::NodeFound(conn)) => {
                self.step = InvokeStep::Deliver;
                InvokeAction::Send {
                    conn_id: conn,
                    event: String::from_str("node.invoke.request"),
                    invoke_id: self.invoke_id.clone(),
                    command: self.tool_name.clone(),
                    args: self.params.clone(),
                }
            },
            (InvokeStep::LookupNode, InvokeEvent::NodeMissing) => {
                self.step = InvokeStep::Done;
                let mut message = String::from_str("Node '");
                message.append(self.node_id.as_str());
                message.append("' is offline. Tool unavailable.");
                InvokeAction::Fail { message, drop_pending: false }
            },
            (InvokeStep::Deliver, InvokeEvent::ClientMissing) => {
                self.step = InvokeStep::Done;
                InvokeAction::Fail {
                    message: String::from_str("node connection lost"),
                    drop_pending: false,
                }
            },
            (InvokeStep::Deliver, InvokeEvent::SendFailed) => {
                self.step = InvokeStep::Done;
                InvokeAction::Fail {
                    message: String::from_str("failed to send tool invoke to node"),
                    drop_pending: false,
                }
            },
            (InvokeStep::Deliver, InvokeEvent::Sent) => {
                self.step = InvokeStep::AwaitReply;
                InvokeAction::AwaitReply {
                    invoke_id: self.invoke_id.clone(),
                    timeout_secs: INVOKE_TIMEOUT_SECS,
                }
            },
            (InvokeStep::AwaitReply, InvokeEvent::Replied) => {
                self.step = InvokeStep::Done;
                InvokeAction::Finish
            },
            (InvokeStep::AwaitReply, InvokeEvent::Cancelled) => {
                self.step = InvokeStep::Done;
                InvokeAction::Fail {
                    message: String::from_str("node tool invoke cancelled"),
                    drop_pending: false,
                }
            },
            (InvokeStep::AwaitReply, InvokeEvent::TimedOut) => {
                self.step = InvokeStep::Done;
                InvokeAction::Fail {
                    message: String::from_str("node tool invoke timeout after 300s"),
                    drop_pending: true,
                }
            },
            _ => InvokeAction::Ignore,
        }
    }
}

} // verus!
