//! Stored sessions and messages.

use vstd::prelude::*;

use crate::types::{Message, MessageView, Model, ModelView, StopReason};

verus! {

/// A session as it is stored.
#[derive(Debug)]
pub struct StoredSession {
    pub id: String,
    pub model: Model,
    pub system_prompt: Option<String>,
    pub cwd: Option<String>,
    /// When the session was created, in milliseconds since the Unix epoch.
    pub created_at: i64,
    /// The session that this one is a child of.
    pub parent_id: Option<String>,
    /// What the session is about.
    pub tagline: Option<String>,
    /// Archived sessions are listed on request only.
    pub archived: bool,
}

/// What a [`StoredSession`] holds.
#[verifier::ext_equal]
pub struct StoredSessionView {
    pub id: Seq<char>,
    pub model: ModelView,
    pub system_prompt: Option<Seq<char>>,
    pub cwd: Option<Seq<char>>,
    pub created_at: i64,
    pub parent_id: Option<Seq<char>>,
    pub tagline: Option<Seq<char>>,
    pub archived: bool,
}

impl View for StoredSession {
    type V = StoredSessionView;

    open spec fn view(&self) -> StoredSessionView {
        StoredSessionView {
            id: self.id@,
            model: self.model@,
            system_prompt: self.system_prompt.deep_view(),
            cwd: self.cwd.deep_view(),
            created_at: self.created_at,
            parent_id: self.parent_id.deep_view(),
            tagline: self.tagline.deep_view(),
            archived: self.archived,
        }
    }
}

impl DeepView for StoredSession {
    type V = StoredSessionView;

    open spec fn deep_view(&self) -> StoredSessionView {
        self@
    }
}

impl Clone for StoredSession {
    fn clone(&self) -> (r: Self)
        ensures
            r@ == self@,
    {
        let r = StoredSession {
            id: self.id.clone(),
            model: self.model.clone(),
            system_prompt: self.system_prompt.clone(),
            cwd: self.cwd.clone(),
            created_at: self.created_at,
            parent_id: self.parent_id.clone(),
            tagline: self.tagline.clone(),
            archived: self.archived,
        };
        r
    }
}

impl StoredSessionView {
    /// The session, archived.
    pub open spec fn archive(self) -> StoredSessionView {
        StoredSessionView { archived: true, ..self }
    }

    /// The session, with another model.
    pub open spec fn with_model(self, model: ModelView) -> StoredSessionView {
        StoredSessionView { model, ..self }
    }
}

impl StoredSession {
    /// The session, archived. Its messages stay.
    pub fn archive(self) -> (r: Self)
        ensures
            r@ == self@.archive(),
    {
        let mut session = self;
        session.archived = true;
        session
    }

    /// The session, with another model.
    pub fn with_model(self, model: Model) -> (r: Self)
        ensures
            r@ == self@.with_model(model@),
    {
        let mut session = self;
        session.model = model;
        session
    }
}

/// Whether a turn is incomplete if it ends in a message.
pub open spec fn is_incomplete(m: MessageView) -> bool {
    match m {
        MessageView::User(_) => true,
        MessageView::ToolResult(_) => true,
        MessageView::Assistant(a) => a.stop_reason == StopReason::ToolUse || a.stop_reason
            == StopReason::Error,
        _ => false,
    }
}

/// Whether a session whose last message this is was interrupted.
pub fn message_indicates_incomplete_turn(msg: &Message) -> (r: bool)
    ensures
        r == is_incomplete(msg@),
{
    match msg {
        Message::User(_) => true,
        Message::ToolResult(_) => true,
        Message::Assistant(a) => a.stop_reason == StopReason::ToolUse || a.stop_reason
            == StopReason::Error,
        _ => false,
    }
}

/// Messages whose first `cut` are replaced by others. Nothing is replaced where there is nothing
/// to cut.
pub open spec fn replaced(
    messages: Seq<MessageView>,
    cut: nat,
    replacements: Seq<MessageView>,
) -> Seq<MessageView> {
    if cut == 0 || messages.len() == 0 {
        messages
    } else if cut >= messages.len() {
        replacements
    } else {
        replacements + messages.subrange(cut as int, messages.len() as int)
    }
}

/// Replace the first `cut` messages of a session, which compaction does with a summary of them.
pub fn replace_messages(messages: &[Message], cut: usize, replacements: &[Message]) -> (r: Vec<
    Message,
>)
    ensures
        r.deep_view() == replaced(messages.deep_view(), cut as nat, replacements.deep_view()),
{
    let ghost all = messages.deep_view();
    let ghost new = replacements.deep_view();
    assert(all.len() == messages.len());
    assert(new.len() == replacements.len());
    let mut out: Vec<Message> = Vec::new();
    let mut from: usize = 0;
    let ghost mut head = Seq::<MessageView>::empty();
    if cut > 0 && messages.len() > 0 {
        from = if cut < messages.len() {
            cut
        } else {
            messages.len()
        };
        let mut i: usize = 0;
        while i < replacements.len()
            invariant
                i <= replacements.len(),
                new == replacements.deep_view(),
                out.len() == i,
                forall|j: int| 0 <= j < i ==> (#[trigger] out@[j])@ == new[j],
            decreases replacements.len() - i,
        {
            assert(new[i as int] == replacements@[i as int]@);
            out.push(replacements[i].clone());
            i = i + 1;
        }
        assert(out.deep_view() =~= new);
        proof {
            head = new;
        }
    }
    assert(out.deep_view() =~= head);
    let mut k: usize = from;
    assert(all.subrange(from as int, from as int) =~= Seq::empty());
    assert(out.deep_view() =~= head + all.subrange(from as int, from as int));
    while k < messages.len()
        invariant
            from <= k <= messages.len(),
            all == messages.deep_view(),
            out.deep_view() == head + all.subrange(from as int, k as int),
        decreases messages.len() - k,
    {
        assert(all[k as int] == messages@[k as int]@);
        let ghost now = out.deep_view();
        let m = messages[k].clone();
        out.push(m);
        assert(out.deep_view() =~= now.push(m@));
        assert(out.deep_view() =~= head + all.subrange(from as int, k + 1));
        k = k + 1;
    }
    assert(out.deep_view() =~= replaced(all, cut as nat, new));
    out
}

/// Compaction keeps every message behind the cut, in order, after the replacements.
pub proof fn law_replacement_keeps_the_rest(
    messages: Seq<MessageView>,
    cut: nat,
    replacements: Seq<MessageView>,
    i: int,
)
    requires
        0 < cut <= i < messages.len(),
    ensures
        replaced(messages, cut, replacements)[replacements.len() + i - cut] == messages[i],
        replaced(messages, cut, replacements).len() == replacements.len() + messages.len() - cut,
{
}

/// Nothing is replaced where there is nothing to cut; else the replacements come first, and all messages
/// before the cut are gone.
pub proof fn law_replacements_come_first(
    messages: Seq<MessageView>,
    cut: nat,
    replacements: Seq<MessageView>,
)
    ensures
        cut == 0 || messages.len() == 0 ==> replaced(messages, cut, replacements) == messages,
        0 < cut && 0 < messages.len() ==> {
            let after = replaced(messages, cut, replacements);
            &&& after.len() >= replacements.len()
            &&& after.subrange(0, replacements.len() as int) == replacements
            &&& cut >= messages.len() ==> after.len() == replacements.len()
        },
{
    let after = replaced(messages, cut, replacements);
    if 0 < cut && 0 < messages.len() {
        assert(after.subrange(0, replacements.len() as int) =~= replacements);
    }
}

/// A turn is complete only once the assistant has stopped by itself, by a limit, or because it was
/// stopped. Where it waits for a tool, failed, or owes an answer, the turn is incomplete.
pub proof fn law_complete_turns(m: MessageView)
    ensures
        m is User || m is ToolResult ==> is_incomplete(m),
        m matches MessageView::Assistant(a) ==> (is_incomplete(m) <==> a.stop_reason is ToolUse
            || a.stop_reason is Error),
        m is Info || m is CompactionSummary ==> !is_incomplete(m),
{
}

} // verus!
