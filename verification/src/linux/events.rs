//! The loop that reads the kernel's reports: which source to read next, and when
//! to stop.

use vstd::prelude::*;

verus! {

/// How long the first source read may block.
pub const POLL_MS: i32 = 100;

/// How long to wait where no source blocked.
pub const IDLE_MS: u64 = 200;

/// What came of reading a source.
#[derive(Debug, Clone, Copy, PartialEq, Eq, Structural)]
pub enum Received {
    /// Its reports, if any, were passed on.
    Reports,
    Interrupted,
    /// There is nothing to read.
    WouldBlock,
    Failed,
}

/// What to do next.
#[derive(Debug, Clone, Copy, PartialEq, Eq, Structural)]
pub enum Action {
    /// Read who opened connections, for so long.
    Owners(i32),
    /// Read datagrams, for so long.
    Datagrams(i32),
    /// Read closed sockets, without blocking.
    Closes,
    /// Wait for so long.
    Wait(u64),
    Stop,
}

/// Where a round of reading stands.
#[derive(Debug, Clone, Copy, PartialEq, Eq, Structural)]
pub enum Stage {
    Owners,
    Datagrams,
    Closes,
    Idle,
    Over,
}

/// Which sources are open, and where the round stands.
#[derive(Debug, Clone, Copy, PartialEq, Eq, Structural)]
pub struct EventLoop {
    pub owners: bool,
    pub datagrams: bool,
    pub closes: bool,
    /// Whether the kernel reports datagrams.
    pub udp_active: bool,
    /// Whether a source blocked in this round.
    pub waited: bool,
    pub stage: Stage,
}

impl EventLoop {
    /// The start of a round, or the end of the loop where no source is open.
    pub open spec fn round(self) -> EventLoop {
        if !self.owners && !self.datagrams && !self.closes {
            EventLoop { stage: Stage::Over, udp_active: false, ..self }
        } else if self.owners {
            EventLoop { stage: Stage::Owners, waited: false, ..self }
        } else {
            (EventLoop { waited: false, ..self }).past_owners()
        }
    }

    /// The round after the openers of connections.
    pub open spec fn past_owners(self) -> EventLoop {
        if self.datagrams {
            EventLoop { stage: Stage::Datagrams, ..self }
        } else {
            self.past_datagrams()
        }
    }

    /// The round after the datagrams.
    pub open spec fn past_datagrams(self) -> EventLoop {
        if self.closes {
            EventLoop { stage: Stage::Closes, ..self }
        } else {
            self.past_closes()
        }
    }

    /// The round after the closed sockets: a wait where nothing blocked, or else
    /// the next round.
    pub open spec fn past_closes(self) -> EventLoop {
        if !self.waited {
            EventLoop { stage: Stage::Idle, ..self }
        } else if !self.owners && !self.datagrams && !self.closes {
            EventLoop { stage: Stage::Over, udp_active: false, ..self }
        } else if self.owners {
            EventLoop { stage: Stage::Owners, waited: false, ..self }
        } else if self.datagrams {
            EventLoop { stage: Stage::Datagrams, waited: false, ..self }
        } else {
            EventLoop { stage: Stage::Closes, waited: false, ..self }
        }
    }

    /// The loop after a source was read, or after a wait. An interruption starts
    /// the round again, or the source again where it is the closed sockets; a
    /// source that fails is read no more.
    pub open spec fn next(self, r: Received) -> EventLoop {
        match (self.stage, r) {
            (Stage::Over, _) => self,
            (Stage::Idle, _) => self.round(),
            (Stage::Closes, Received::Reports) => self,
            (Stage::Closes, Received::Interrupted) => self,
            (Stage::Closes, Received::WouldBlock) => self.past_closes(),
            (Stage::Closes, Received::Failed) => (EventLoop { closes: false, ..self }).past_closes(),
            (_, Received::Interrupted) => self.round(),
            (Stage::Owners, Received::Reports) => (EventLoop {
                waited: true,
                ..self
            }).past_owners(),
            (Stage::Owners, _) => (EventLoop { owners: false, ..self }).past_owners(),
            (Stage::Datagrams, Received::Reports) => (EventLoop {
                waited: true,
                ..self
            }).past_datagrams(),
            (Stage::Datagrams, _) => (EventLoop {
                datagrams: false,
                udp_active: false,
                ..self
            }).past_datagrams(),
        }
    }

    /// What is to be done where the loop stands.
    pub open spec fn action_of(self) -> Action {
        match self.stage {
            Stage::Owners => Action::Owners(POLL_MS),
            Stage::Datagrams => Action::Datagrams(
                if self.waited {
                    0
                } else {
                    POLL_MS
                },
            ),
            Stage::Closes => Action::Closes,
            Stage::Idle => Action::Wait(IDLE_MS),
            Stage::Over => Action::Stop,
        }
    }

    fn go_round(self) -> (r: EventLoop)
        ensures
            r == self.round(),
    {
        if !self.owners && !self.datagrams && !self.closes {
            EventLoop { stage: Stage::Over, udp_active: false, ..self }
        } else if self.owners {
            EventLoop { stage: Stage::Owners, waited: false, ..self }
        } else {
            EventLoop { waited: false, ..self }.go_past_owners()
        }
    }

    fn go_past_owners(self) -> (r: EventLoop)
        ensures
            r == self.past_owners(),
    {
        if self.datagrams {
            EventLoop { stage: Stage::Datagrams, ..self }
        } else {
            self.go_past_datagrams()
        }
    }

    fn go_past_datagrams(self) -> (r: EventLoop)
        ensures
            r == self.past_datagrams(),
    {
        if self.closes {
            EventLoop { stage: Stage::Closes, ..self }
        } else {
            self.go_past_closes()
        }
    }

    fn go_past_closes(self) -> (r: EventLoop)
        ensures
            r == self.past_closes(),
    {
        if !self.waited {
            EventLoop { stage: Stage::Idle, ..self }
        } else if !self.owners && !self.datagrams && !self.closes {
            EventLoop { stage: Stage::Over, udp_active: false, ..self }
        } else if self.owners {
            EventLoop { stage: Stage::Owners, waited: false, ..self }
        } else if self.datagrams {
            EventLoop { stage: Stage::Datagrams, waited: false, ..self }
        } else {
            EventLoop { stage: Stage::Closes, waited: false, ..self }
        }
    }

    /// The loop over the sources that could be opened.
    pub fn start(owners: bool, datagrams: bool, closes: bool) -> (l: EventLoop)
        ensures
            l == (EventLoop {
                owners,
                datagrams,
                closes,
                udp_active: datagrams,
                waited: false,
                stage: Stage::Over,
            }).round(),
    {
        EventLoop {
            owners,
            datagrams,
            closes,
            udp_active: datagrams,
            waited: false,
            stage: Stage::Over,
        }.go_round()
    }

    /// What is to be done next.
    pub fn action(self) -> (a: Action)
        ensures
            a == self.action_of(),
    {
        match self.stage {
            Stage::Owners => Action::Owners(POLL_MS),
            Stage::Datagrams => Action::Datagrams(
                if self.waited {
                    0
                } else {
                    POLL_MS
                },
            ),
            Stage::Closes => Action::Closes,
            Stage::Idle => Action::Wait(IDLE_MS),
            Stage::Over => Action::Stop,
        }
    }

    /// The loop after what was to be done is done.
    pub fn step(self, r: Received) -> (l: EventLoop)
        ensures
            l == self.next(r),
    {
        match self.stage {
            Stage::Over => self,
            Stage::Idle => self.go_round(),
            Stage::Closes => match r {
                Received::Reports => self,
                Received::Interrupted => self,
                Received::WouldBlock => self.go_past_closes(),
                Received::Failed => EventLoop { closes: false, ..self }.go_past_closes(),
            },
            Stage::Owners => match r {
                Received::Interrupted => self.go_round(),
                Received::Reports => EventLoop { waited: true, ..self }.go_past_owners(),
                _ => EventLoop { owners: false, ..self }.go_past_owners(),
            },
            Stage::Datagrams => match r {
                Received::Interrupted => self.go_round(),
                Received::Reports => EventLoop { waited: true, ..self }.go_past_datagrams(),
                _ => EventLoop {
                    datagrams: false,
                    udp_active: false,
                    ..self
                }.go_past_datagrams(),
            },
        }
    }
}

/// Whether a source that is read is open, and datagrams count as reported only
/// while they are read.
pub open spec fn sound(l: EventLoop) -> bool {
    &&& l.stage == Stage::Owners ==> l.owners
    &&& l.stage == Stage::Datagrams ==> l.datagrams
    &&& l.stage == Stage::Closes ==> l.closes
    &&& l.udp_active ==> l.datagrams
    &&& l.stage == Stage::Over ==> !l.owners && !l.datagrams && !l.closes && !l.udp_active
}

/// Whatever the sources do, only open ones are read, datagrams count as reported
/// only while they are read, and the loop ends once no source is left.
pub proof fn law_the_loop_stays_sound(l: EventLoop, r: Received)
    requires
        sound(l),
    ensures
        sound(l.next(r)),
{
}

/// A source that fails is given up, and no other is; a source that was given up does
/// not come back.
pub proof fn law_failed_sources_are_given_up(l: EventLoop, r: Received)
    ensures
        l.next(r).owners == (l.owners && !(l.stage == Stage::Owners && (r is Failed
            || r is WouldBlock))),
        l.next(r).datagrams == (l.datagrams && !(l.stage == Stage::Datagrams && (r is Failed
            || r is WouldBlock))),
        l.next(r).closes == (l.closes && !(l.stage == Stage::Closes && r is Failed)),
        l.next(r).udp_active ==> l.udp_active,
{
}

/// The sources take turns: owners, then datagrams, then closed sockets, which are
/// read until there are no more.
pub proof fn law_sources_take_turns(l: EventLoop)
    requires
        l.owners && l.datagrams && l.closes,
    ensures
        l.stage == Stage::Owners ==> l.next(Received::Reports).stage == Stage::Datagrams,
        l.stage == Stage::Datagrams ==> l.next(Received::Reports).stage == Stage::Closes,
        l.stage == Stage::Closes ==> l.next(Received::Reports).stage == Stage::Closes,
        l.stage == Stage::Closes && l.waited ==> l.next(Received::WouldBlock).stage
            == Stage::Owners,
        l.stage == Stage::Closes && !l.waited ==> l.next(Received::WouldBlock).stage
            == Stage::Idle,
        l.stage == Stage::Idle ==> l.next(Received::Reports).stage == Stage::Owners,
{
}

/// The first source of a round is waited for a tenth of a second, later ones not;
/// the loop rests a fifth of a second where none was waited for, and stops when none
/// is left.
pub proof fn law_one_source_is_waited_for(l: EventLoop)
    ensures
        l.stage == Stage::Owners ==> l.action_of() == Action::Owners(100),
        l.stage == Stage::Datagrams && !l.waited ==> l.action_of() == Action::Datagrams(100),
        l.stage == Stage::Datagrams && l.waited ==> l.action_of() == Action::Datagrams(0),
        l.stage == Stage::Closes ==> l.action_of() == Action::Closes,
        l.stage == Stage::Idle ==> l.action_of() == Action::Wait(200),
        l.stage == Stage::Over ==> l.action_of() == Action::Stop,
        l.stage == Stage::Idle && !l.owners && !l.datagrams && !l.closes ==> l.next(
            Received::Reports,
        ).stage == Stage::Over,
        l.stage == Stage::Over ==> l.next(Received::Reports) == l,
        l.stage == Stage::Owners && l.datagrams ==> l.next(Received::Reports).waited,
{
}

} // verus!
