//! What happened in a conversation, and its state as the screen shows it.
use crate::json::{Json, Value};
use crate::text::{opt_text, same};
use vstd::prelude::*;

verus! {

#[derive(Clone, Copy, PartialEq, Eq, Structural, Debug)]
pub enum LaneStatus {
    Running,
    Completed,
    Failed,
}

/// What a conversation is doing: a turn, waiting for an answer or an approval,
/// or nothing.
#[derive(Clone, Copy, PartialEq, Eq, Structural, Debug)]
pub enum HarnessStatus {
    Running,
    WaitingForInput,
    Idle,
}

#[derive(Clone, Copy, PartialEq, Eq, Structural, Debug)]
pub enum GoalStatus {
    Active,
    Paused,
    Ended,
}

pub enum HarnessEvent {
    UserInput { text: String },
    /// What the user wrote during a run.
    Steer { text: String },
    AssistantText { text: String },
    Note { entry: String },
    FilePresented { path: String, caption: Option<String> },
    SystemDecision { step: String, reasoning: String },
    ModelError { message: String },
    UserQuestion { questions: Json },
    ApprovalRequest { tool_name: String, summary: String, index: usize, total: usize },
    LaneSpawned { id: String, title: String },
    LaneCompleted { id: String, title: String, status: LaneStatus, report: Option<String> },
    ToolCall { tool_name: String, arguments: Json },
    ToolResult { tool_name: String, result: Json },
    InvalidToolCall { tool_name: String, error: String },
}

/// What an event says.
pub ghost enum Happening {
    UserInput { text: Seq<char> },
    Steer { text: Seq<char> },
    AssistantText { text: Seq<char> },
    Note { entry: Seq<char> },
    FilePresented { path: Seq<char>, caption: Option<Seq<char>> },
    SystemDecision { step: Seq<char>, reasoning: Seq<char> },
    ModelError { message: Seq<char> },
    UserQuestion { questions: Value },
    ApprovalRequest { tool_name: Seq<char>, summary: Seq<char>, index: usize, total: usize },
    LaneSpawned { id: Seq<char>, title: Seq<char> },
    LaneCompleted {
        id: Seq<char>,
        title: Seq<char>,
        status: LaneStatus,
        report: Option<Seq<char>>,
    },
    ToolCall { tool_name: Seq<char>, arguments: Value },
    ToolResult { tool_name: Seq<char>, result: Value },
    InvalidToolCall { tool_name: Seq<char>, error: Seq<char> },
}

impl View for HarnessEvent {
    type V = Happening;

    open spec fn view(&self) -> Happening {
        match *self {
            HarnessEvent::UserInput { text } => Happening::UserInput { text: text@ },
            HarnessEvent::Steer { text } => Happening::Steer { text: text@ },
            HarnessEvent::AssistantText { text } => Happening::AssistantText { text: text@ },
            HarnessEvent::Note { entry } => Happening::Note { entry: entry@ },
            HarnessEvent::FilePresented { path, caption } => Happening::FilePresented {
                path: path@,
                caption: opt_text(caption),
            },
            HarnessEvent::SystemDecision { step, reasoning } => Happening::SystemDecision {
                step: step@,
                reasoning: reasoning@,
            },
            HarnessEvent::ModelError { message } => Happening::ModelError { message: message@ },
            HarnessEvent::UserQuestion { questions } => Happening::UserQuestion {
                questions: questions@,
            },
            HarnessEvent::ApprovalRequest { tool_name, summary, index, total } => {
                Happening::ApprovalRequest {
                    tool_name: tool_name@,
                    summary: summary@,
                    index,
                    total,
                }
            },
            HarnessEvent::LaneSpawned { id, title } => Happening::LaneSpawned {
                id: id@,
                title: title@,
            },
            HarnessEvent::LaneCompleted { id, title, status, report } => {
                Happening::LaneCompleted {
                    id: id@,
                    title: title@,
                    status,
                    report: opt_text(report),
                }
            },
            HarnessEvent::ToolCall { tool_name, arguments } => Happening::ToolCall {
                tool_name: tool_name@,
                arguments: arguments@,
            },
            HarnessEvent::ToolResult { tool_name, result } => Happening::ToolResult {
                tool_name: tool_name@,
                result: result@,
            },
            HarnessEvent::InvalidToolCall { tool_name, error } => Happening::InvalidToolCall {
                tool_name: tool_name@,
                error: error@,
            },
        }
    }
}

pub open spec fn happenings(list: Seq<HarnessEvent>) -> Seq<Happening> {
    list.map_values(|e: HarnessEvent| e@)
}

/// A delegated task.
pub struct LaneRecord {
    pub title: String,
    pub status: LaneStatus,
    pub started_at: String,
}

pub ghost struct Lane {
    pub title: Seq<char>,
    pub status: LaneStatus,
    pub started_at: Seq<char>,
}

impl View for LaneRecord {
    type V = Lane;

    open spec fn view(&self) -> Lane {
        Lane { title: self.title@, status: self.status, started_at: self.started_at@ }
    }
}

pub open spec fn lanes_of(list: Seq<LaneRecord>) -> Seq<Lane> {
    list.map_values(|l: LaneRecord| l@)
}

/// A state of the workspace that can be restored.
pub struct Checkpoint {
    pub id: String,
    pub label: String,
}

pub open spec fn checkpoints_of(list: Seq<Checkpoint>) -> Seq<(Seq<char>, Seq<char>)> {
    list.map_values(|c: Checkpoint| (c.id@, c.label@))
}

/// The state of a conversation.
pub struct HarnessState {
    pub status: HarnessStatus,
    pub title: Option<String>,
    pub user_request: String,
    /// The first thing the user asked for.
    pub initial_request: Option<String>,
    pub events: Vec<HarnessEvent>,
    pub lanes: Vec<LaneRecord>,
    pub checkpoints: Vec<Checkpoint>,
    pub pending_question: Option<Json>,
    pub manual_approval: bool,
    pub goal: Option<GoalStatus>,
    pub watching: usize,
    pub prompt_tokens: u64,
    pub completion_tokens: u64,
    pub cache_read_tokens: u64,
    pub total_tokens: u64,
    pub last_prompt_tokens: u64,
}

/// What the state of a conversation is.
pub ghost struct Conversation {
    pub status: HarnessStatus,
    pub title: Option<Seq<char>>,
    pub user_request: Seq<char>,
    pub initial_request: Option<Seq<char>>,
    pub events: Seq<Happening>,
    pub lanes: Seq<Lane>,
    pub checkpoints: Seq<(Seq<char>, Seq<char>)>,
    pub pending_question: Option<Value>,
    pub manual_approval: bool,
    pub goal: Option<GoalStatus>,
    pub watching: usize,
    pub prompt_tokens: u64,
    pub completion_tokens: u64,
    pub cache_read_tokens: u64,
    pub total_tokens: u64,
    pub last_prompt_tokens: u64,
}

impl View for HarnessState {
    type V = Conversation;

    open spec fn view(&self) -> Conversation {
        Conversation {
            status: self.status,
            title: opt_text(self.title),
            user_request: self.user_request@,
            initial_request: opt_text(self.initial_request),
            events: happenings(self.events@),
            lanes: lanes_of(self.lanes@),
            checkpoints: checkpoints_of(self.checkpoints@),
            pending_question: match self.pending_question {
                Some(j) => Some(j@),
                None => None,
            },
            manual_approval: self.manual_approval,
            goal: self.goal,
            watching: self.watching,
            prompt_tokens: self.prompt_tokens,
            completion_tokens: self.completion_tokens,
            cache_read_tokens: self.cache_read_tokens,
            total_tokens: self.total_tokens,
            last_prompt_tokens: self.last_prompt_tokens,
        }
    }
}

/// A lane is at work.
pub open spec fn lane_running(lanes: Seq<Lane>) -> bool {
    exists|i: int| 0 <= i < lanes.len() && (#[trigger] lanes[i]).status == LaneStatus::Running
}

/// The conversation or one of its lanes is at work.
pub open spec fn working(c: Conversation) -> bool {
    c.status == HarnessStatus::Running || lane_running(c.lanes)
}

pub fn any_lane_running(lanes: &Vec<LaneRecord>) -> (r: bool)
    ensures
        r == lane_running(lanes_of(lanes@)),
{
    let ghost all = lanes_of(lanes@);
    for i in 0..lanes.len()
        invariant
            all == lanes_of(lanes@),
            forall|k: int| 0 <= k < i ==> (#[trigger] all[k]).status != LaneStatus::Running,
    {
        assert(all[i as int].status == lanes@[i as int].status);
        if lanes[i].status == LaneStatus::Running {
            return true;
        }
    }
    false
}

pub fn is_working(state: &HarnessState) -> (r: bool)
    ensures
        r == working(state@),
{
    state.status == HarnessStatus::Running || any_lane_running(&state.lanes)
}

/// The last event is a decision of the given kind.
pub open spec fn last_step_is(events: Seq<Happening>, step: Seq<char>) -> bool {
    events.len() > 0 && is_step(events.last(), step)
}

pub open spec fn is_step(e: Happening, step: Seq<char>) -> bool {
    match e {
        Happening::SystemDecision { step: s, .. } => s == step,
        _ => false,
    }
}

pub fn decides(e: &HarnessEvent, step: &str) -> (r: bool)
    ensures
        r == is_step(e@, step@),
{
    match e {
        HarnessEvent::SystemDecision { step: s, .. } => same(s.as_str(), step),
        _ => false,
    }
}

/// The history of a running conversation is being compacted.
pub open spec fn compacting(c: Conversation) -> bool {
    c.status == HarnessStatus::Running && last_step_is(c.events, "history_compaction_pass"@)
}

pub fn is_compacting_now(state: &HarnessState) -> (r: bool)
    ensures
        r == compacting(state@),
{
    if state.status != HarnessStatus::Running || state.events.len() == 0 {
        return false;
    }
    let last = &state.events[state.events.len() - 1];
    assert(state@.events.last() == last@);
    decides(last, "history_compaction_pass")
}

/// The call that waits for approval: its tool, what it is about, and which of
/// how many it is.
pub open spec fn approval(c: Conversation) -> Option<(Seq<char>, Seq<char>, usize, usize)> {
    if c.status != HarnessStatus::WaitingForInput || c.events.len() == 0 {
        None
    } else {
        match c.events.last() {
            Happening::ApprovalRequest { tool_name, summary, index, total } => Some(
                (tool_name, summary, index, total),
            ),
            _ => None,
        }
    }
}

pub fn pending_approval(state: &HarnessState) -> (r: Option<(String, String, usize, usize)>)
    ensures
        approval(state@) == match r {
            Some(a) => Some((a.0@, a.1@, a.2, a.3)),
            None => None,
        },
{
    if state.status != HarnessStatus::WaitingForInput || state.events.len() == 0 {
        return None;
    }
    let last = &state.events[state.events.len() - 1];
    assert(state@.events.last() == last@);
    match last {
        HarnessEvent::ApprovalRequest { tool_name, summary, index, total } => Some(
            (tool_name.clone(), summary.clone(), *index, *total),
        ),
        _ => None,
    }
}

} // verus!
