//! What the screen asks of the world around it.
use crate::form::{ModelConfig, Setup};
use crate::text::opt_text;
use vstd::prelude::*;

verus! {

/// What is handed to the loop that runs a conversation.
pub enum LoopInput {
    UserMessage { text: String },
    Answer { text: String },
    Interrupt,
    Approve,
    ApproveAll,
    Deny,
    SetMode { manual: bool },
    Compact,
    SetGoal { text: String },
    CancelGoal,
}

/// What is handed to the loop, with its texts as sequences.
pub ghost enum Message {
    UserMessage { text: Seq<char> },
    Answer { text: Seq<char> },
    Interrupt,
    Approve,
    ApproveAll,
    Deny,
    SetMode { manual: bool },
    Compact,
    SetGoal { text: Seq<char> },
    CancelGoal,
}

impl View for LoopInput {
    type V = Message;

    open spec fn view(&self) -> Message {
        match *self {
            LoopInput::UserMessage { text } => Message::UserMessage { text: text@ },
            LoopInput::Answer { text } => Message::Answer { text: text@ },
            LoopInput::Interrupt => Message::Interrupt,
            LoopInput::Approve => Message::Approve,
            LoopInput::ApproveAll => Message::ApproveAll,
            LoopInput::Deny => Message::Deny,
            LoopInput::SetMode { manual } => Message::SetMode { manual },
            LoopInput::Compact => Message::Compact,
            LoopInput::SetGoal { text } => Message::SetGoal { text: text@ },
            LoopInput::CancelGoal => Message::CancelGoal,
        }
    }
}

/// What is done once it is known whether the loop took what it was handed.
#[derive(Clone, Copy, PartialEq, Eq, Structural, Debug)]
pub enum Receipt {
    /// Nothing.
    Ignored,
    /// A turn begins.
    Turn,
    /// There is a goal.
    Goal,
    /// The history is compacted.
    Compaction,
}

/// Why a configuration is saved.
pub enum Purpose {
    /// A model is connected by its key.
    Connect,
    /// An account has signed in, and it may be known whose it is.
    Account { email: Option<String> },
}

pub ghost enum Intent {
    Connect,
    Account { email: Option<Seq<char>> },
}

impl View for Purpose {
    type V = Intent;

    open spec fn view(&self) -> Intent {
        match *self {
            Purpose::Connect => Intent::Connect,
            Purpose::Account { email } => Intent::Account { email: opt_text(email) },
        }
    }
}

/// One thing to be done outside, in the order in which it is asked for.
pub enum Effect {
    /// Hand something to the loop.
    Send { input: LoopInput, receipt: Receipt },
    /// Start a loop that goes on with the conversation, with a message to begin
    /// with where there is one. What was streamed before is dropped.
    Spawn { initial: Option<String> },
    /// End the loop.
    Abort,
    /// The conversation is another one: no state of it has been read, no animation
    /// goes on, and its model is to be looked up.
    Open,
    /// Look whether the file of the conversation is there, and resume it.
    TryResume,
    /// Look whether the file of the conversation is there and which conversation
    /// was active last, and resume.
    ResumeLast,
    /// Submit a message that was held.
    Submit { text: String },
    /// List the profiles, after the configuration in use has become one.
    ListProfiles,
    /// Keep the configuration, so that it can be restored.
    KeepConfig,
    RestoreConfig,
    ForgetConfig,
    /// Make a profile the one in use for all conversations.
    Activate { name: String },
    /// Make a profile the one of this conversation.
    Override { name: String },
    /// Look up the model of the conversation.
    RefreshModel,
    /// Save a configuration under a name, or a new one, and use it.
    SaveProfile { editing: Option<String>, setup: ModelConfig, purpose: Purpose },
    RemoveProfile { name: String },
    /// Save whether changes are approved by hand.
    SetManual { manual: bool },
    /// Restore the workspace.
    Rewind { id: String, label: String },
    ShowTheme { index: usize },
    PersistTheme,
    DeleteSession { name: String },
    RenameSession { name: String, title: String },
    /// List the saved conversations anew.
    ListSessions,
    /// Attach the image on the clipboard.
    PasteImage,
    FetchModels,
    /// Sign in, with a device code or in the browser.
    SignIn { device: bool },
    /// Wait until the device code has been entered.
    AwaitDevice,
    SignOut,
    /// Drop the key of the profile in use.
    ForgetKey,
    /// Put a text on the clipboard.
    Copy { text: String },
    /// Show a text in place of what is streamed.
    Stream { text: String },
}

/// What is asked for, with its texts as sequences.
pub ghost enum Deed {
    Send { input: Message, receipt: Receipt },
    Spawn { initial: Option<Seq<char>> },
    Abort,
    Open,
    TryResume,
    ResumeLast,
    Submit { text: Seq<char> },
    ListProfiles,
    KeepConfig,
    RestoreConfig,
    ForgetConfig,
    Activate { name: Seq<char> },
    Override { name: Seq<char> },
    RefreshModel,
    SaveProfile { editing: Option<Seq<char>>, setup: Setup, purpose: Intent },
    RemoveProfile { name: Seq<char> },
    SetManual { manual: bool },
    Rewind { id: Seq<char>, label: Seq<char> },
    ShowTheme { index: nat },
    PersistTheme,
    DeleteSession { name: Seq<char> },
    RenameSession { name: Seq<char>, title: Seq<char> },
    ListSessions,
    PasteImage,
    FetchModels,
    SignIn { device: bool },
    AwaitDevice,
    SignOut,
    ForgetKey,
    Copy { text: Seq<char> },
    Stream { text: Seq<char> },
}

impl View for Effect {
    type V = Deed;

    open spec fn view(&self) -> Deed {
        match *self {
            Effect::Send { input, receipt } => Deed::Send { input: input@, receipt },
            Effect::Spawn { initial } => Deed::Spawn { initial: opt_text(initial) },
            Effect::Abort => Deed::Abort,
            Effect::Open => Deed::Open,
            Effect::TryResume => Deed::TryResume,
            Effect::ResumeLast => Deed::ResumeLast,
            Effect::Submit { text } => Deed::Submit { text: text@ },
            Effect::ListProfiles => Deed::ListProfiles,
            Effect::KeepConfig => Deed::KeepConfig,
            Effect::RestoreConfig => Deed::RestoreConfig,
            Effect::ForgetConfig => Deed::ForgetConfig,
            Effect::Activate { name } => Deed::Activate { name: name@ },
            Effect::Override { name } => Deed::Override { name: name@ },
            Effect::RefreshModel => Deed::RefreshModel,
            Effect::SaveProfile { editing, setup, purpose } => Deed::SaveProfile {
                editing: opt_text(editing),
                setup: setup@,
                purpose: purpose@,
            },
            Effect::RemoveProfile { name } => Deed::RemoveProfile { name: name@ },
            Effect::SetManual { manual } => Deed::SetManual { manual },
            Effect::Rewind { id, label } => Deed::Rewind { id: id@, label: label@ },
            Effect::ShowTheme { index } => Deed::ShowTheme { index: index as nat },
            Effect::PersistTheme => Deed::PersistTheme,
            Effect::DeleteSession { name } => Deed::DeleteSession { name: name@ },
            Effect::RenameSession { name, title } => Deed::RenameSession {
                name: name@,
                title: title@,
            },
            Effect::ListSessions => Deed::ListSessions,
            Effect::PasteImage => Deed::PasteImage,
            Effect::FetchModels => Deed::FetchModels,
            Effect::SignIn { device } => Deed::SignIn { device },
            Effect::AwaitDevice => Deed::AwaitDevice,
            Effect::SignOut => Deed::SignOut,
            Effect::ForgetKey => Deed::ForgetKey,
            Effect::Copy { text } => Deed::Copy { text: text@ },
            Effect::Stream { text } => Deed::Stream { text: text@ },
        }
    }
}

pub open spec fn deeds(list: Seq<Effect>) -> Seq<Deed> {
    list.map_values(|e: Effect| e@)
}

/// Something that is handed over, whatever comes of it.
pub open spec fn told_loop(input: Message) -> Deed {
    Deed::Send { input, receipt: Receipt::Ignored }
}

pub fn no_effects() -> (r: Vec<Effect>)
    ensures
        deeds(r@) == Seq::<Deed>::empty(),
{
    let list: Vec<Effect> = Vec::new();
    assert(deeds(list@) =~= Seq::empty());
    list
}

pub fn push_effect(list: &mut Vec<Effect>, e: Effect)
    ensures
        deeds(final(list)@) == deeds(old(list)@).push(e@),
{
    let ghost before = deeds(list@);
    let ghost it = e@;
    list.push(e);
    assert(deeds(list@) =~= before.push(it));
}

pub fn one_effect(e: Effect) -> (r: Vec<Effect>)
    ensures
        deeds(r@) == seq![e@],
{
    let mut list = no_effects();
    push_effect(&mut list, e);
    assert(deeds(list@) =~= seq![e@]);
    list
}

pub fn append_effects(list: &mut Vec<Effect>, more: Vec<Effect>)
    ensures
        deeds(final(list)@) == deeds(old(list)@) + deeds(more@),
{
    let ghost before = deeds(list@);
    let ghost rest = deeds(more@);
    let mut more = more;
    list.append(&mut more);
    assert(deeds(list@) =~= before + rest);
}

} // verus!
