//! The event-dispatch table: one parsed message against the current
//! session state yields exactly one reaction and the next state.
//!
//! All state mutation of a session is centralized here, so the parser and
//! the transport stay stateless. Automatic reactions (registering after
//! the first notice, answering a liveness probe) are internal; the other
//! reactions name the single handler capability the read loop must invoke
//! before it dispatches the next message.

use vstd::prelude::*;

use crate::client::{Client, ClientState, StateView};
use crate::message_parser::{Command, CommandView, Message, MessageView};

verus! {

use vstd::string::StrSliceExecFns;

/// The one reaction the dispatch table picks for a message: an automatic
/// protocol reply, a single handler capability to invoke, the end of the
/// read loop, or nothing.
#[derive(Debug, Clone, Copy, PartialEq, Eq, Structural)]
pub enum Action {
    /// Issue the registration sequence; no handler is invoked.
    Register,
    /// Issue the keep-alive reply; no handler is invoked.
    Pong,
    /// Invoke `on_server_connect`: the handshake was acknowledged.
    ServerConnect,
    /// Invoke `on_message_of_the_day`.
    MessageOfTheDay,
    /// Invoke `on_channel_join`: the join was confirmed.
    ChannelJoin,
    /// Invoke `on_message_sent`.
    MessageSent,
    /// Invoke `on_unimplemented` with the raw token preserved.
    Unimplemented,
    /// The abort sentinel: end the loop with a connection error.
    Terminate,
    /// An unmatched state/command combination: no reaction.
    Ignore,
}

/// The channel name a join confirmation carries: its first parameter,
/// with the channel-name marker removed when present.
pub open spec fn spec_channel_of(p: Seq<char>) -> Seq<char> {
    if p.len() > 0 && p[0] == '#' {
        p.drop_first()
    } else {
        p
    }
}

/// The state/command transition table, exhaustive over the command set:
/// what reacting to `m` in state `s` does, and the state it leaves behind.
/// Unmatched combinations are no-ops.
pub open spec fn spec_dispatch(s: StateView, m: MessageView) -> (Action, StateView) {
    match m.command {
        CommandView::Notice => if s is Connecting {
            (Action::Register, StateView::Registering)
        } else {
            (Action::Ignore, s)
        },
        CommandView::RplWelcome => (Action::ServerConnect, StateView::InServer),
        CommandView::RplMotdStart => (Action::MessageOfTheDay, s),
        CommandView::RplMotd => (Action::MessageOfTheDay, s),
        CommandView::Join => if m.parameters.len() > 0 {
            (Action::ChannelJoin, StateView::InChannel(spec_channel_of(m.parameters[0])))
        } else {
            (Action::Ignore, s)
        },
        CommandView::PrivMsg => (Action::MessageSent, s),
        CommandView::Ping => (Action::Pong, s),
        CommandView::AbortClient => (Action::Terminate, s),
        CommandView::Unimplemented(_) => (Action::Unimplemented, s),
        _ => (Action::Ignore, s),
    }
}

/// A whole run of the dispatch loop over the inbound messages in arrival
/// order: the reactions it picks, one per dispatched message, and the
/// state it ends in. The run ends early exactly when the abort sentinel
/// is dispatched.
pub open spec fn spec_run(s: StateView, msgs: Seq<MessageView>) -> (Seq<Action>, StateView)
    decreases msgs.len(),
{
    if msgs.len() == 0 {
        (Seq::empty(), s)
    } else {
        let (a, s1) = spec_dispatch(s, msgs[0]);
        if a is Terminate {
            (seq![a], s1)
        } else {
            let (rest, sf) = spec_run(s1, msgs.drop_first());
            (seq![a] + rest, sf)
        }
    }
}

/// Registration is triggered exactly by a notice arriving in
/// `Connecting`: no other state/command pair issues it.
pub proof fn lemma_register_iff(s: StateView, m: MessageView)
    ensures
        spec_dispatch(s, m).0 is Register <==> (s is Connecting && m.command is Notice),
{
}

/// From `Connecting`, a notice drives exactly one registration and the
/// move to `Registering`; any further notice there is a no-op and the
/// state stays put, so registration is never re-triggered.
pub proof fn lemma_notice_registers_once(s: StateView, m: MessageView, m2: MessageView)
    requires
        s is Connecting,
        m.command is Notice,
        m2.command is Notice,
    ensures
        spec_dispatch(s, m).0 is Register,
        spec_dispatch(s, m).1 is Registering,
        spec_dispatch(spec_dispatch(s, m).1, m2).0 is Ignore,
        spec_dispatch(spec_dispatch(s, m).1, m2).1 is Registering,
{
}

/// Dispatch ordering: a run picks for each message exactly the reaction
/// the table gives against the state reached by the messages before it,
/// threading the state in arrival order; no message is reordered or
/// skipped, and the run falls short of the input only by ending on the
/// abort sentinel.
pub proof fn lemma_dispatch_order(s: StateView, msgs: Seq<MessageView>)
    ensures
        ({
            let (actions, _) = spec_run(s, msgs);
            &&& actions.len() <= msgs.len()
            &&& forall|i: int|
                0 <= i < actions.len() ==> #[trigger] actions[i] == spec_dispatch(
                    spec_run(s, msgs.take(i)).1,
                    msgs[i],
                ).0
            &&& forall|i: int|
                0 <= i < actions.len() ==> #[trigger] spec_run(s, msgs.take(i + 1)).1
                    == spec_dispatch(spec_run(s, msgs.take(i)).1, msgs[i]).1
            &&& actions.len() < msgs.len() ==> actions.len() > 0 && actions.last() is Terminate
        }),
    decreases msgs.len(),
{
    if msgs.len() > 0 {
        reveal_with_fuel(spec_run, 3);
        let (a, s1) = spec_dispatch(s, msgs[0]);
        assert(msgs.take(0) =~= Seq::<MessageView>::empty());
        assert(msgs.take(1) =~= seq![msgs[0]]);
        assert(seq![msgs[0]].drop_first() =~= Seq::<MessageView>::empty());
        assert(spec_run(s, msgs.take(0)).1 == s);
        assert(spec_run(s, msgs.take(1)).1 == s1);
        if !(a is Terminate) {
            let tail = msgs.drop_first();
            lemma_dispatch_order(s1, tail);
            let (actions, _) = spec_run(s, msgs);
            let (rest, _) = spec_run(s1, tail);
            assert(actions =~= seq![a] + rest);
            assert(actions[0] == a);
            if actions.len() < msgs.len() {
                assert(rest.len() < tail.len());
                assert(actions.last() == rest.last());
            }
            assert forall|i: int| 0 <= i < actions.len() implies #[trigger] actions[i]
                == spec_dispatch(spec_run(s, msgs.take(i)).1, msgs[i]).0 by {
                if i > 0 {
                    assert(tail.take(i - 1) =~= msgs.take(i).drop_first());
                    assert(tail[i - 1] == msgs[i]);
                    assert(spec_run(s, msgs.take(i)).1 == spec_run(s1, tail.take(i - 1)).1);
                    assert(actions[i] == rest[i - 1]);
                }
            }
            assert forall|i: int| 0 <= i < actions.len() implies #[trigger] spec_run(
                s,
                msgs.take(i + 1),
            ).1 == spec_dispatch(spec_run(s, msgs.take(i)).1, msgs[i]).1 by {
                if i > 0 {
                    assert(tail.take(i - 1) =~= msgs.take(i).drop_first());
                    assert(tail.take(i) =~= msgs.take(i + 1).drop_first());
                    assert(tail[i - 1] == msgs[i]);
                    assert(spec_run(s, msgs.take(i)).1 == spec_run(s1, tail.take(i - 1)).1);
                    assert(spec_run(s, msgs.take(i + 1)).1 == spec_run(s1, tail.take(i)).1);
                    assert(spec_run(s1, tail.take(i)).1 == spec_dispatch(
                        spec_run(s1, tail.take(i - 1)).1,
                        tail[i - 1],
                    ).1);
                }
            }
        }
    }
}

/// Applies the transition table once: advances the session's state and
/// returns the reaction the read loop must carry out. Called once per
/// inbound message, strictly in arrival order.
pub fn handle_event(client: &mut Client, message: &Message) -> (action: Action)
    ensures
        action == spec_dispatch(old(client)@.state, message@).0,
        final(client)@.state == spec_dispatch(old(client)@.state, message@).1,
        final(client)@.ip == old(client)@.ip,
        final(client)@.port == old(client)@.port,
{
    match &message.command {
        Command::Notice => {
            match &client.state {
                ClientState::Connecting => {
                    client.state = ClientState::Registering;
                    Action::Register
                },
                _ => Action::Ignore,
            }
        },
        Command::RplWelcome => {
            client.state = ClientState::InServer;
            Action::ServerConnect
        },
        Command::RplMotdStart => Action::MessageOfTheDay,
        Command::RplMotd => Action::MessageOfTheDay,
        Command::Join => {
            if message.parameters.len() > 0 {
                let p = &message.parameters[0];
                let n = p.as_str().unicode_len();
                let name = if n > 0 && p.as_str().get_char(0) == '#' {
                    p.as_str().substring_char(1, n).to_owned()
                } else {
                    p.clone()
                };
                proof {
                    assert(name@ =~= spec_channel_of(message@.parameters[0]));
                }
                client.state = ClientState::InChannel(name);
                Action::ChannelJoin
            } else {
                Action::Ignore
            }
        },
        Command::PrivMsg => Action::MessageSent,
        Command::Ping => Action::Pong,
        Command::AbortClient => Action::Terminate,
        Command::Unimplemented(_) => Action::Unimplemented,
        _ => Action::Ignore,
    }
}

} // verus!
