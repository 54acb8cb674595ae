//! The idle/command state machine that shares one connection between change
//! notifications and commands.
//!
//! The connection's owner feeds the machine each event it observes and performs the
//! actions it gets back, in order. While the machine idles it waits for the server or
//! for a command; while a command is outstanding it waits for the server alone; right
//! after a reply it looks at the command queue without waiting.

use vstd::prelude::*;
use crate::command::{encoded_arguments, encoded_command, encoded_list, RawCommand, RawCommandList};
use crate::frame::Frame;
use crate::response::{CommandError, MpdError, Response, StateChangeError};
use crate::state_changes::{frame_changes, is_subsystem_of, response_to_subsystem, Subsystem};

verus! {

/// The command that asks the server to report changes.
pub fn idle() -> (r: RawCommand)
    ensures
        r@.0 == "idle"@,
        r@.1.len() == 0,
{
    RawCommand::new("idle")
}

/// The command that ends an `idle`.
pub fn cancel_idle() -> (r: RawCommand)
    ensures
        r@.0 == "noidle"@,
        r@.1.len() == 0,
{
    RawCommand::new("noidle")
}

/// The line that starts idling.
pub open spec fn idle_line() -> Seq<char> {
    "idle\n"@
}

/// The line that cancels idling.
pub open spec fn noidle_line() -> Seq<char> {
    "noidle\n"@
}

/// Where the connection stands. `R` is the type of a command's reply channel.
#[derive(Debug)]
pub enum LoopState<R> {
    /// `idle` was the last line written.
    Idling,
    /// `noidle` was written to make room for the command, which waits for the response
    /// that ends the `idle`.
    CancellingIdle(RawCommandList, R),
    /// The command was written; its reply goes to the channel held here.
    AwaitingReply(R),
    /// A reply was just delivered; the queue is to be looked at without waiting.
    ReplySent,
}

/// What the connection's owner observed. `E` is the transport's error type.
#[derive(Debug)]
pub enum Event<R, E> {
    /// The server sent a complete response.
    Response(Response),
    /// Reading from the transport failed.
    TransportError(E),
    /// The server closed the connection.
    TransportClosed,
    /// A command arrived in the queue, with its reply channel.
    Command(RawCommandList, R),
    /// The queue held no command when looked at.
    QueueEmpty,
    /// Every sender of the queue is gone.
    CommandsClosed,
    /// Writing the line of the last `Write` action failed.
    WriteFailed(E),
}

/// What the connection's owner is to do.
#[derive(Debug)]
pub enum Action<R, E> {
    /// Write this text to the transport.
    Write(String),
    /// Deliver this to the state-change subscriber.
    StateChange(Result<Subsystem, StateChangeError<E>>),
    /// Send this on a command's reply channel.
    Reply(R, Result<Response, CommandError<E>>),
}

/// What the machine waits for in a state.
#[derive(Clone, Copy, Debug, PartialEq, Eq, Structural)]
pub enum Wait {
    /// The first of a response from the server and a command from the queue.
    ServerOrCommand,
    /// A response from the server.
    Server,
    /// A look at the queue that does not wait.
    PollCommands,
}

/// The actions of one step and the state after it; `None` ends the connection.
pub struct Step<R, E> {
    pub actions: Vec<Action<R, E>>,
    pub next: Option<LoopState<R>>,
}

/// An action as the laws of the machine speak of it.
pub enum ActionView<R, E> {
    Write(Seq<char>),
    Changed(Seq<char>),
    ChangeFailed(StateChangeError<E>),
    Reply(R, Result<Response, CommandError<E>>),
}

pub open spec fn view_action<R, E>(a: Action<R, E>) -> ActionView<R, E> {
    match a {
        Action::Write(s) => ActionView::Write(s@),
        Action::StateChange(Ok(sub)) => ActionView::Changed(subsystem_name(sub)),
        Action::StateChange(Err(e)) => ActionView::ChangeFailed(e),
        Action::Reply(r, x) => ActionView::Reply(r, x),
    }
}

/// The server's name of a subsystem.
pub open spec fn subsystem_name(s: Subsystem) -> Seq<char> {
    match s {
        Subsystem::Database => "database"@,
        Subsystem::Message => "message"@,
        Subsystem::Mixer => "mixer"@,
        Subsystem::Mount => "mount"@,
        Subsystem::Neighbor => "neighbor"@,
        Subsystem::Options => "options"@,
        Subsystem::Output => "output"@,
        Subsystem::Partition => "partition"@,
        Subsystem::Player => "player"@,
        Subsystem::Queue => "playlist"@,
        Subsystem::Sticker => "sticker"@,
        Subsystem::StoredPlaylist => "stored_playlist"@,
        Subsystem::Subscription => "subscription"@,
        Subsystem::Update => "update"@,
        Subsystem::Other(n) => n@,
    }
}

proof fn lemma_subsystem_name(s: Subsystem, name: Seq<char>)
    requires
        is_subsystem_of(s, name),
    ensures
        subsystem_name(s) == name,
{
    reveal_strlit("database");
    reveal_strlit("message");
    reveal_strlit("mixer");
    reveal_strlit("mount");
    reveal_strlit("neighbor");
    reveal_strlit("options");
    reveal_strlit("output");
    reveal_strlit("partition");
    reveal_strlit("player");
    reveal_strlit("playlist");
    reveal_strlit("sticker");
    reveal_strlit("stored_playlist");
    reveal_strlit("subscription");
    reveal_strlit("update");
}

/// What the response that ends an `idle` reports: one change for each `changed` field,
/// in order, or the server's error.
pub open spec fn change_views<R, E>(res: Response) -> Seq<ActionView<R, E>> {
    if res.frames@.len() == 0 {
        seq![ActionView::ChangeFailed(StateChangeError::ErrorMessage(res.error->0))]
    } else {
        frame_changes(res.frames@[0]@).map_values(|n: Seq<char>| ActionView::Changed(n))
    }
}

/// Every subsystem delivered is the one its name stands for, so a known name never
/// comes out as `Other`.
pub open spec fn faithful_changes<R, E>(a: Seq<Action<R, E>>) -> bool {
    forall|i: int|
        0 <= i < a.len() ==> (#[trigger] a[i] matches Action::StateChange(Ok(sub))
            ==> is_subsystem_of(sub, subsystem_name(sub)))
}

/// The events that a state waits for, and that are well-formed.
pub open spec fn expects<R, E>(s: LoopState<R>, e: Event<R, E>) -> bool {
    match e {
        Event::Response(res) => res.wf() && !(s is ReplySent),
        Event::TransportError(_) | Event::TransportClosed | Event::WriteFailed(_) => !(
        s is ReplySent),
        Event::Command(cmd, _) => cmd.wf() && (s is Idling || s is ReplySent),
        Event::QueueEmpty => s is ReplySent,
        Event::CommandsClosed => s is Idling || s is ReplySent,
    }
}

/// One step of the machine: the actions, in order, and the next state.
pub open spec fn step_spec<R, E>(s: LoopState<R>, e: Event<R, E>) -> (Seq<ActionView<R, E>>, Option<
    LoopState<R>,
>) {
    match s {
        LoopState::Idling => match e {
            Event::Response(res) => (
                change_views(res).push(ActionView::Write(idle_line())),
                Some(LoopState::Idling),
            ),
            Event::TransportError(err) => (
                seq![ActionView::ChangeFailed(StateChangeError::Protocol(err))],
                None,
            ),
            Event::WriteFailed(err) => (
                seq![ActionView::ChangeFailed(StateChangeError::Protocol(err))],
                None,
            ),
            Event::Command(cmd, r) => (
                seq![ActionView::Write(noidle_line())],
                Some(LoopState::CancellingIdle(cmd, r)),
            ),
            _ => (Seq::empty(), None),
        },
        LoopState::CancellingIdle(cmd, r) => match e {
            Event::Response(res) => (
                change_views(res).push(ActionView::Write(encoded_list(cmd@))),
                Some(LoopState::AwaitingReply(r)),
            ),
            Event::TransportError(err) => (
                seq![ActionView::Reply(r, Err(CommandError::Protocol(err)))],
                None,
            ),
            Event::WriteFailed(err) => (
                seq![ActionView::Reply(r, Err(CommandError::Protocol(err)))],
                None,
            ),
            _ => (seq![ActionView::Reply(r, Err(CommandError::ConnectionClosed))], None),
        },
        LoopState::AwaitingReply(r) => match e {
            Event::Response(res) => (seq![ActionView::Reply(r, Ok(res))], Some(LoopState::ReplySent)),
            Event::TransportError(err) => (
                seq![ActionView::Reply(r, Err(CommandError::Protocol(err)))],
                None,
            ),
            Event::WriteFailed(err) => (
                seq![ActionView::Reply(r, Err(CommandError::Protocol(err)))],
                None,
            ),
            _ => (seq![ActionView::Reply(r, Err(CommandError::ConnectionClosed))], None),
        },
        LoopState::ReplySent => match e {
            Event::Command(cmd, r) => (
                seq![ActionView::Write(encoded_list(cmd@))],
                Some(LoopState::AwaitingReply(r)),
            ),
            Event::QueueEmpty => (seq![ActionView::Write(idle_line())], Some(LoopState::Idling)),
            _ => (Seq::empty(), None),
        },
    }
}

/// The views of a list of actions.
pub open spec fn view_actions<R, E>(a: Seq<Action<R, E>>) -> Seq<ActionView<R, E>> {
    a.map_values(|x: Action<R, E>| view_action(x))
}

/// The lines written by a list of actions, in order.
pub open spec fn writes<R, E>(a: Seq<ActionView<R, E>>) -> Seq<Seq<char>>
    decreases a.len(),
{
    if a.len() == 0 {
        Seq::empty()
    } else {
        let w = writes(a.drop_last());
        match a.last() {
            ActionView::Write(line) => w.push(line),
            _ => w,
        }
    }
}

proof fn lemma_writes_append<R, E>(a: Seq<ActionView<R, E>>, b: Seq<ActionView<R, E>>)
    ensures
        writes(a + b) == writes(a) + writes(b),
    decreases b.len(),
{
    if b.len() == 0 {
        assert(a + b =~= a);
        assert(writes(a) + writes(b) =~= writes(a));
    } else {
        assert((a + b).drop_last() =~= a + b.drop_last());
        lemma_writes_append(a, b.drop_last());
        assert(writes(a + b) =~= writes(a) + writes(b));
    }
}

proof fn lemma_writes_none<R, E>(a: Seq<ActionView<R, E>>)
    requires
        forall|i: int| 0 <= i < a.len() ==> !(#[trigger] a[i] is Write),
    ensures
        writes(a) == Seq::<Seq<char>>::empty(),
    decreases a.len(),
{
    if a.len() > 0 {
        let b = a.drop_last();
        assert forall|i: int| 0 <= i < b.len() implies !(#[trigger] b[i] is Write) by {
            assert(b[i] == a[i]);
        }
        lemma_writes_none(b);
        assert(!(a[a.len() - 1] is Write));
    }
}

proof fn lemma_change_views_write_nothing<R, E>(res: Response)
    ensures
        writes(change_views::<R, E>(res)) == Seq::<Seq<char>>::empty(),
{
    lemma_writes_none(change_views::<R, E>(res));
}

/// A command that arrives while idling: `noidle` is written first; once the response that
/// ends the `idle` has arrived, the change it reports is delivered, and then the command's
/// encoding is written, once. The machine then waits for the command's reply.
pub proof fn lemma_command_while_idling<R, E>(cmd: RawCommandList, r: R, res: Response)
    requires
        cmd.wf(),
        res.wf(),
    ensures
        ({
            let (a1, s1) = step_spec::<R, E>(LoopState::Idling, Event::Command(cmd, r));
            let (a2, s2) = step_spec::<R, E>(s1->0, Event::Response(res));
            &&& s1 is Some
            &&& writes(a1 + a2) == seq![noidle_line(), encoded_list(cmd@)]
            &&& a2 == change_views::<R, E>(res).push(ActionView::Write(encoded_list(cmd@)))
            &&& s2 == Some(LoopState::AwaitingReply(r))
        }),
{
    let (a1, s1) = step_spec::<R, E>(LoopState::Idling, Event::Command(cmd, r));
    let (a2, s2) = step_spec::<R, E>(s1->0, Event::Response(res));
    lemma_writes_append(a1, a2);
    lemma_change_views_write_nothing::<R, E>(res);
    assert(a1.drop_last() =~= Seq::<ActionView<R, E>>::empty());
    assert(writes(Seq::<ActionView<R, E>>::empty()) == Seq::<Seq<char>>::empty());
    assert(writes(a1) =~= seq![noidle_line()]);
    assert(a2.drop_last() =~= change_views::<R, E>(res));
    assert(writes(a2) =~= seq![encoded_list(cmd@)]);
    assert(writes(a1 + a2) =~= seq![noidle_line(), encoded_list(cmd@)]);
}

/// A command that is already queued when a reply has been delivered: its encoding is
/// written at once, with no `noidle` and no `idle` before it.
pub proof fn lemma_command_after_reply<R, E>(cmd: RawCommandList, r: R)
    requires
        cmd.wf(),
    ensures
        step_spec::<R, E>(LoopState::ReplySent, Event::Command(cmd, r)).0 == seq![
            ActionView::<R, E>::Write(encoded_list(cmd@)),
        ],
        step_spec::<R, E>(LoopState::ReplySent, Event::Command(cmd, r)).1 == Some(
            LoopState::AwaitingReply(r),
        ),
{
}

/// After a command's reply is delivered, with no command queued, exactly one line is
/// written: `idle`; the machine idles again.
pub proof fn lemma_idle_after_reply<R, E>(r: R, res: Response)
    ensures
        ({
            let (a1, s1) = step_spec::<R, E>(LoopState::AwaitingReply(r), Event::Response(res));
            let (a2, s2) = step_spec::<R, E>(s1->0, Event::QueueEmpty);
            &&& a1 == seq![ActionView::<R, E>::Reply(r, Ok(res))]
            &&& writes(a1 + a2) == seq![idle_line()]
            &&& s2 == Some(LoopState::<R>::Idling)
        }),
{
    let (a1, s1) = step_spec::<R, E>(LoopState::AwaitingReply(r), Event::Response(res));
    let (a2, s2) = step_spec::<R, E>(s1->0, Event::QueueEmpty);
    lemma_writes_append(a1, a2);
    assert(a1.drop_last() =~= Seq::<ActionView<R, E>>::empty());
    assert(a2.drop_last() =~= Seq::<ActionView<R, E>>::empty());
    assert(writes(Seq::<ActionView<R, E>>::empty()) == Seq::<Seq<char>>::empty());
    assert(writes(a1) =~= Seq::<Seq<char>>::empty());
    assert(writes(a2) =~= seq![idle_line()]);
    assert(writes(a1 + a2) =~= seq![idle_line()]);
}

/// Append the actions that report the response ending an `idle`.
fn push_change<R, E>(actions: &mut Vec<Action<R, E>>, res: Response)
    requires
        res.wf(),
        faithful_changes(old(actions)@),
    ensures
        view_actions(final(actions)@) == view_actions(old(actions)@) + change_views::<R, E>(res),
        faithful_changes(final(actions)@),
{
    let ghost res_v = res;
    let ghost start = actions@;
    match response_to_subsystem(res) {
        Ok(subs) => {
            let ghost names = frame_changes(res_v.frames@[0]@);
            let ghost orig = subs@;
            let mut subs = subs;
            let mut i: usize = 0;
            let n = subs.len();
            while i < n
                invariant
                    n == orig.len() == names.len(),
                    i <= n,
                    subs@ == orig.skip(i as int),
                    forall|j: int| 0 <= j < orig.len() ==> is_subsystem_of(#[trigger] orig[j], names[j]),
                    faithful_changes(actions@),
                    view_actions(actions@) == view_actions(start) + names.take(i as int).map_values(
                        |m: Seq<char>| ActionView::<R, E>::Changed(m),
                    ),
                decreases n - i,
            {
                let sub = subs.remove(0);
                assert(sub == orig[i as int]);
                proof {
                    lemma_subsystem_name(sub, names[i as int]);
                }
                let ghost before = actions@;
                actions.push(Action::StateChange(Ok(sub)));
                assert(subs@ =~= orig.skip(i as int + 1));
                assert(view_actions(actions@) =~= view_actions(before).push(ActionView::Changed(names[i as int])));
                assert(names.take(i as int + 1).map_values(|m: Seq<char>| ActionView::<R, E>::Changed(m))
                    =~= names.take(i as int).map_values(|m: Seq<char>| ActionView::<R, E>::Changed(m)).push(
                    ActionView::Changed(names[i as int]),
                ));
                assert forall|k: int| 0 <= k < actions@.len() implies (#[trigger] actions@[k] matches Action::StateChange(Ok(s))
                    ==> is_subsystem_of(s, subsystem_name(s))) by {
                    if k < before.len() {
                        assert(actions@[k] == before[k]);
                    }
                }
                i = i + 1;
            }
            assert(names.take(n as int) =~= names);
        },
        Err(e) => {
            actions.push(Action::StateChange(Err(StateChangeError::ErrorMessage(e))));
            assert forall|k: int| 0 <= k < actions@.len() implies (#[trigger] actions@[k] matches Action::StateChange(Ok(s))
                ==> is_subsystem_of(s, subsystem_name(s))) by {
                if k < start.len() {
                    assert(actions@[k] == start[k]);
                }
            }
        },
    }
    assert(view_actions(actions@) =~= view_actions(start) + change_views::<R, E>(res_v));
}

impl<R> LoopState<R> {
    /// What the machine waits for in this state.
    pub fn awaits(&self) -> (w: Wait)
        ensures
            self is Idling ==> w == Wait::ServerOrCommand,
            (self is CancellingIdle || self is AwaitingReply) ==> w == Wait::Server,
            self is ReplySent ==> w == Wait::PollCommands,
    {
        match self {
            LoopState::Idling => Wait::ServerOrCommand,
            LoopState::CancellingIdle(..) => Wait::Server,
            LoopState::AwaitingReply(_) => Wait::Server,
            LoopState::ReplySent => Wait::PollCommands,
        }
    }

    /// A command that waits for the end of an `idle` is a well-formed list.
    pub open spec fn inv(&self) -> bool {
        self matches LoopState::CancellingIdle(cmd, _) ==> cmd.wf()
    }

    /// Whether this state waits for the event, and both are well-formed.
    pub fn accepts<E>(&self, e: &Event<R, E>) -> (b: bool)
        ensures
            b == (self.inv() && expects(*self, *e)),
    {
        let (idling, reply_sent) = match self {
            LoopState::Idling => (true, false),
            LoopState::CancellingIdle(cmd, _) => {
                if cmd.len() == 0 {
                    return false;
                }
                (false, false)
            },
            LoopState::AwaitingReply(_) => (false, false),
            LoopState::ReplySent => (false, true),
        };
        match e {
            Event::Response(res) => (res.frames.len() > 0 || res.error.is_some()) && !reply_sent,
            Event::TransportError(_) => !reply_sent,
            Event::TransportClosed => !reply_sent,
            Event::WriteFailed(_) => !reply_sent,
            Event::Command(cmd, _) => cmd.len() > 0 && (idling || reply_sent),
            Event::QueueEmpty => reply_sent,
            Event::CommandsClosed => idling || reply_sent,
        }
    }
}

proof fn lemma_fixed_lines()
    ensures
        encoded_command("idle"@, Seq::empty()) == idle_line(),
        encoded_command("noidle"@, Seq::empty()) == noidle_line(),
{
    reveal_strlit("idle");
    reveal_strlit("noidle");
    reveal_strlit("idle\n");
    reveal_strlit("noidle\n");
    assert(encoded_arguments(Seq::<Seq<char>>::empty()) == Seq::<char>::empty());
    assert(encoded_command("idle"@, Seq::empty()) =~= idle_line());
    assert(encoded_command("noidle"@, Seq::empty()) =~= noidle_line());
}

/// Take one step: the actions to perform, in order, and the state after them.
pub fn step<R, E>(state: LoopState<R>, event: Event<R, E>) -> (r: Step<R, E>)
    requires
        state.inv(),
        expects(state, event),
    ensures
        view_actions(r.actions@) == step_spec(state, event).0,
        faithful_changes(r.actions@),
        r.next matches Some(n) ==> n.inv(),
        r.next == step_spec(state, event).1,
{
    let mut actions: Vec<Action<R, E>> = Vec::new();
    let ghost s0 = state;
    let ghost e0 = event;
    proof {
        lemma_fixed_lines();
    }
    let next = match state {
        LoopState::Idling => match event {
            Event::Response(res) => {
                push_change(&mut actions, res);
                let ghost before = actions@;
                actions.push(Action::Write(idle().encode()));
                assert(view_actions(actions@) =~= view_actions(before).push(ActionView::Write(idle_line())));
                Some(LoopState::Idling)
            },
            Event::TransportError(err) => {
                actions.push(Action::StateChange(Err(StateChangeError::Protocol(err))));
                None
            },
            Event::WriteFailed(err) => {
                actions.push(Action::StateChange(Err(StateChangeError::Protocol(err))));
                None
            },
            Event::Command(cmd, r) => {
                actions.push(Action::Write(cancel_idle().encode()));
                Some(LoopState::CancellingIdle(cmd, r))
            },
            _ => None,
        },
        LoopState::CancellingIdle(cmd, r) => match event {
            Event::Response(res) => {
                push_change(&mut actions, res);
                let ghost before = actions@;
                actions.push(Action::Write(cmd.encode()));
                assert(view_actions(actions@) =~= view_actions(before).push(ActionView::Write(encoded_list(cmd@))));
                Some(LoopState::AwaitingReply(r))
            },
            Event::TransportError(err) => {
                actions.push(Action::Reply(r, Err(CommandError::Protocol(err))));
                None
            },
            Event::WriteFailed(err) => {
                actions.push(Action::Reply(r, Err(CommandError::Protocol(err))));
                None
            },
            _ => {
                actions.push(Action::Reply(r, Err(CommandError::ConnectionClosed)));
                None
            },
        },
        LoopState::AwaitingReply(r) => match event {
            Event::Response(res) => {
                actions.push(Action::Reply(r, Ok(res)));
                Some(LoopState::ReplySent)
            },
            Event::TransportError(err) => {
                actions.push(Action::Reply(r, Err(CommandError::Protocol(err))));
                None
            },
            Event::WriteFailed(err) => {
                actions.push(Action::Reply(r, Err(CommandError::Protocol(err))));
                None
            },
            _ => {
                actions.push(Action::Reply(r, Err(CommandError::ConnectionClosed)));
                None
            },
        },
        LoopState::ReplySent => match event {
            Event::Command(cmd, r) => {
                actions.push(Action::Write(cmd.encode()));
                Some(LoopState::AwaitingReply(r))
            },
            Event::QueueEmpty => {
                actions.push(Action::Write(idle().encode()));
                Some(LoopState::Idling)
            },
            _ => None,
        },
    };
    assert(view_actions(actions@) =~= step_spec(s0, e0).0);
    Step { actions, next }
}

} // verus!
