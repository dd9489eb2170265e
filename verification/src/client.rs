use crate::common::FrameType;
use vstd::prelude::*;

verus! {

/// Where an interactive client stands.
#[derive(PartialEq, Eq, Debug, Clone, Copy, Structural)]
pub enum ClientState {
    Subscribed,
    Interactive,
    Close,
    Closed,
}

/// What one poll of the client does.
#[derive(PartialEq, Eq, Debug, Clone, Copy, Structural)]
pub enum ClientStep {
    /// Read a frame from the user, send it, then print the server's response.
    SendFrame,
    /// Print the next response that the server sends.
    AwaitResponse,
}

impl ClientState {
    /// The states in which a poll does anything; the others are not implemented.
    pub open spec fn can_poll(self) -> bool {
        self is Interactive || self is Subscribed
    }

    pub open spec fn spec_poll_step(self) -> ClientStep {
        if self is Interactive {
            ClientStep::SendFrame
        } else {
            ClientStep::AwaitResponse
        }
    }

    /// The state after a poll that read (when the state is interactive) a frame with `command`.
    pub open spec fn spec_next(self, command: FrameType) -> ClientState {
        match self {
            ClientState::Interactive => if command == FrameType::Sub {
                ClientState::Subscribed
            } else {
                ClientState::Interactive
            },
            other => other,
        }
    }

    /// What the next poll does.
    pub fn poll_step(&self) -> (r: ClientStep)
        requires
            self.can_poll(),
        ensures
            r == self.spec_poll_step(),
    {
        match self {
            ClientState::Interactive => ClientStep::SendFrame,
            _ => ClientStep::AwaitResponse,
        }
    }

    /// The state after a poll; `command` is that of the frame that the poll
    /// read, and counts only when the state is interactive. Sending a
    /// subscription turns the client into a listener.
    pub fn next(&self, command: FrameType) -> (r: ClientState)
        requires
            self.can_poll(),
        ensures
            r == self.spec_next(command),
    {
        match self {
            ClientState::Interactive => {
                if command == FrameType::Sub {
                    ClientState::Subscribed
                } else {
                    ClientState::Interactive
                }
            },
            ClientState::Subscribed => ClientState::Subscribed,
            ClientState::Close => ClientState::Close,
            ClientState::Closed => ClientState::Closed,
        }
    }
}

/// The state after polls that read the frames with `commands`, in order.
pub open spec fn spec_run(start: ClientState, commands: Seq<FrameType>) -> ClientState
    decreases commands.len(),
{
    if commands.len() == 0 {
        start
    } else {
        spec_run(start.spec_next(commands[0]), commands.drop_first())
    }
}

/// An interactive client becomes a listener with the first subscription it
/// sends and stays one; until then it stays interactive. It never reaches a
/// state in which it cannot poll.
pub proof fn lemma_run_from_interactive(commands: Seq<FrameType>)
    ensures
        spec_run(ClientState::Interactive, commands) == if commands.contains(FrameType::Sub) {
            ClientState::Subscribed
        } else {
            ClientState::Interactive
        },
        spec_run(ClientState::Interactive, commands).can_poll(),
    decreases commands.len(),
{
    if commands.len() > 0 {
        let rest = commands.drop_first();
        if commands[0] == FrameType::Sub {
            lemma_run_subscribed(rest);
            assert(commands.contains(FrameType::Sub)) by {
                assert(commands[0] == FrameType::Sub);
            }
        } else {
            lemma_run_from_interactive(rest);
            assert(commands.contains(FrameType::Sub) == rest.contains(FrameType::Sub)) by {
                if rest.contains(FrameType::Sub) {
                    let j = choose|j: int| 0 <= j < rest.len() && rest[j] == FrameType::Sub;
                    assert(commands[j + 1] == FrameType::Sub);
                }
                if commands.contains(FrameType::Sub) {
                    let j = choose|j: int| 0 <= j < commands.len() && commands[j] == FrameType::Sub;
                    assert(j > 0);
                    assert(rest[j - 1] == FrameType::Sub);
                }
            }
        }
    }
}

/// A listening client stays a listener, whatever it reads.
pub proof fn lemma_run_subscribed(commands: Seq<FrameType>)
    ensures
        spec_run(ClientState::Subscribed, commands) == ClientState::Subscribed,
    decreases commands.len(),
{
    if commands.len() > 0 {
        lemma_run_subscribed(commands.drop_first());
    }
}

} // verus!
