use vstd::prelude::*;

verus! {

/// The message author's identity, as the platform reports it.
pub struct AuthorInfo {
    pub is_bot: bool,
    pub username: String,
    pub global_name: Option<String>,
    pub nickname: Option<String>,
    pub avatar_url: String,
}

/// One inbound message event, reduced to what the relay reads.
pub struct MessageEvent {
    pub author: AuthorInfo,
    pub channel_id: u64,
    pub message_id: u64,
    pub body: String,
}

/// A repost the relay should publish under the author's visual identity.
pub struct RepostPlan {
    pub body: String,
    pub display_name: String,
    pub avatar_url: String,
    pub suppress_mentions: bool,
}

/// The display name a repost carries: the author's nickname in the channel if
/// set and non-empty, else the global display name if set and non-empty, else
/// the username.
pub open spec fn display_name_spec(a: AuthorInfo) -> Seq<char> {
    if a.nickname is Some && a.nickname->0@.len() > 0 {
        a.nickname->0@
    } else if a.global_name is Some && a.global_name->0@.len() > 0 {
        a.global_name->0@
    } else {
        a.username@
    }
}

/// A message is skipped without any side effect when its author is a bot or
/// carries the reserved repost-identity name: the relay never reprocesses its
/// own reposts.
pub open spec fn author_filtered(a: AuthorInfo) -> bool {
    a.is_bot || a.username@ == crate::reserved_name()
}

fn choose_display_name(a: &AuthorInfo) -> (r: String)
    ensures
        r@ == display_name_spec(*a),
{
    if let Some(n) = &a.nickname {
        if n.as_str().unicode_len() != 0 {
            return n.clone();
        }
    }
    if let Some(g) = &a.global_name {
        if g.as_str().unicode_len() != 0 {
            return g.clone();
        }
    }
    a.username.clone()
}

/// Decide what, if anything, to repost for one inbound message. `None` means
/// the message is left alone: its author is filtered, or no rewrite rule
/// matched its body. Otherwise the plan carries the rewritten body, the
/// author's preferred display name and avatar, and suppresses every mention,
/// so a repost never re-triggers notifications. A caller publishes the plan
/// through the channel's repost identity and deletes the original only after
/// the publish has succeeded.
pub fn plan_repost(ev: &MessageEvent) -> (r: Option<RepostPlan>)
    ensures
        r is Some <==> (!author_filtered(ev.author) && crate::rewrite::spec_needs_rewrite(
            ev.body@,
        )),
        r is Some ==> ({
            let p = r->0;
            &&& p.body@ == crate::rewrite::rewritten_all(ev.body@)
            &&& p.display_name@ == display_name_spec(ev.author)
            &&& p.avatar_url@ == ev.author.avatar_url@
            &&& p.suppress_mentions == true
        }),
{
    if ev.author.is_bot {
        return None;
    }
    if crate::is_reserved_name(ev.author.username.as_str()) {
        return None;
    }
    let (needs, new_body) = crate::rewrite::rewrite(ev.body.as_str());
    if !needs {
        return None;
    }
    let display_name = choose_display_name(&ev.author);
    Some(
        RepostPlan {
            body: new_body,
            display_name,
            avatar_url: ev.author.avatar_url.clone(),
            suppress_mentions: true,
        },
    )
}

/// How the handling of one message ended. Every failure is message-scoped:
/// it is logged by the caller and never stops the process.
#[derive(Clone, Copy, PartialEq, Eq, Structural, Debug)]
pub enum RelayOutcome {
    /// Filtered author or nothing to rewrite: no side effect at all.
    Skipped,
    /// The repost identity could not be obtained; the original stays.
    IdentityUnavailable,
    /// The repost could not be published; the original stays.
    PublishFailed,
    /// The repost went out but the original could not be deleted: a visible
    /// duplicate remains, accepted and not retried.
    DeleteFailed,
    /// Repost published and original deleted.
    Completed,
}

/// Where the handling of one message stands once a repost has been planned.
#[derive(Clone, Copy, PartialEq, Eq, Structural, Debug)]
pub enum RelayStep {
    AcquireIdentity,
    Publish,
    DeleteOriginal,
    Done(RelayOutcome),
}

/// The strict order of the side-effecting steps: acquire the identity, then
/// publish, and delete the original only after a successful publish; the
/// first failure is terminal for the message.
pub open spec fn step_after(s: RelayStep, ok: bool) -> RelayStep {
    match s {
        RelayStep::AcquireIdentity => if ok {
            RelayStep::Publish
        } else {
            RelayStep::Done(RelayOutcome::IdentityUnavailable)
        },
        RelayStep::Publish => if ok {
            RelayStep::DeleteOriginal
        } else {
            RelayStep::Done(RelayOutcome::PublishFailed)
        },
        RelayStep::DeleteOriginal => if ok {
            RelayStep::Done(RelayOutcome::Completed)
        } else {
            RelayStep::Done(RelayOutcome::DeleteFailed)
        },
        RelayStep::Done(o) => RelayStep::Done(o),
    }
}

/// Advance the per-message pipeline by one step, given whether the step's
/// outside call succeeded.
pub fn advance(s: RelayStep, ok: bool) -> (r: RelayStep)
    ensures
        r == step_after(s, ok),
{
    match s {
        RelayStep::AcquireIdentity => if ok {
            RelayStep::Publish
        } else {
            RelayStep::Done(RelayOutcome::IdentityUnavailable)
        },
        RelayStep::Publish => if ok {
            RelayStep::DeleteOriginal
        } else {
            RelayStep::Done(RelayOutcome::PublishFailed)
        },
        RelayStep::DeleteOriginal => if ok {
            RelayStep::Done(RelayOutcome::Completed)
        } else {
            RelayStep::Done(RelayOutcome::DeleteFailed)
        },
        RelayStep::Done(o) => RelayStep::Done(o),
    }
}

} // verus!
