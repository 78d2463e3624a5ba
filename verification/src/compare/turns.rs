//! Whose turn it is when two captures are read side by side.
use vstd::prelude::*;

verus! {

/// One of two captures.
#[derive(Debug, Clone, Copy, PartialEq, Eq, Structural)]
pub enum Side {
    First,
    Second,
}

/// Which of two captures are at their end, and whether the second one is next.
#[derive(Debug, Clone, Copy, PartialEq, Eq, Structural)]
pub struct Turns {
    pub first_eof: bool,
    pub second_eof: bool,
    pub second_next: bool,
}

/// What came of a turn.
#[derive(Debug, Clone, Copy, PartialEq, Eq, Structural)]
pub enum ReadOutcome {
    /// What was read was taken in.
    Taken,
    /// What was read is not compared.
    Passed,
    /// Nothing was read yet.
    Nothing,
    /// The capture is at its end.
    Eof,
    /// The capture cannot be read.
    Failed,
    /// What was read differs from the other capture.
    Differs,
}

/// What to do after a turn.
#[derive(Debug, Clone, Copy, PartialEq, Eq, Structural)]
pub enum LoopAction {
    /// Take the next turn.
    GoOn,
    /// Both captures are at their end: report what they have shown.
    Report,
    /// Stop without a report, and without an error.
    Quit,
    /// Stop with an error.
    Fail,
}

impl Turns {
    /// Both captures are at their start.
    pub fn new() -> (r: Self)
        ensures
            r == (Turns { first_eof: false, second_eof: false, second_next: false }),
    {
        Turns { first_eof: false, second_eof: false, second_next: false }
    }

    /// Whose turn it is.
    pub open spec fn turn(self) -> Option<Side> {
        if !self.second_eof && (self.second_next || self.first_eof) {
            Some(Side::Second)
        } else if !self.first_eof {
            Some(Side::First)
        } else {
            None
        }
    }

    /// The next turn: the captures are read in turn, and one that is at its end is
    /// passed over.
    pub fn next(&mut self) -> (r: Option<Side>)
        ensures
            r == old(self).turn(),
            *final(self) == (Turns { second_next: r == Some(Side::First), ..*old(self) }),
    {
        let turn = if !self.second_eof && (self.second_next || self.first_eof) {
            Some(Side::Second)
        } else if !self.first_eof {
            Some(Side::First)
        } else {
            None
        };
        self.second_next = match turn {
            Some(Side::First) => true,
            _ => false,
        };
        turn
    }

    /// What was read does not count as a turn.
    pub fn skip(&mut self)
        ensures
            *final(self) == (Turns { second_next: false, ..*old(self) }),
    {
        self.second_next = false;
    }

    /// A capture is at its end.
    pub fn end(&mut self, side: Side)
        ensures
            *final(self) == match side {
                Side::First => Turns { first_eof: true, ..*old(self) },
                Side::Second => Turns { second_eof: true, ..*old(self) },
            },
    {
        match side {
            Side::First => {
                self.first_eof = true;
            },
            Side::Second => {
                self.second_eof = true;
            },
        }
    }

    /// After a turn of the given capture, and what to do then. What is not compared
    /// does not count as a turn, a capture that cannot be read ends the comparison,
    /// and so does a difference.
    pub open spec fn after_read(self, side: Side, outcome: ReadOutcome) -> (Turns, LoopAction) {
        match outcome {
            ReadOutcome::Taken | ReadOutcome::Nothing => (self, LoopAction::GoOn),
            ReadOutcome::Passed => (Turns { second_next: false, ..self }, LoopAction::GoOn),
            ReadOutcome::Eof => {
                let ended = match side {
                    Side::First => Turns { first_eof: true, ..self },
                    Side::Second => Turns { second_eof: true, ..self },
                };
                (
                    ended,
                    if ended.first_eof && ended.second_eof {
                        LoopAction::Report
                    } else {
                        LoopAction::GoOn
                    },
                )
            },
            ReadOutcome::Failed => (self, LoopAction::Quit),
            ReadOutcome::Differs => (self, LoopAction::Fail),
        }
    }

    /// Takes in what came of a turn of the given capture.
    pub fn on_read(&mut self, side: Side, outcome: ReadOutcome) -> (r: LoopAction)
        ensures
            (*final(self), r) == old(self).after_read(side, outcome),
    {
        match outcome {
            ReadOutcome::Taken | ReadOutcome::Nothing => LoopAction::GoOn,
            ReadOutcome::Passed => {
                self.skip();
                LoopAction::GoOn
            },
            ReadOutcome::Eof => {
                self.end(side);
                if self.first_eof && self.second_eof {
                    LoopAction::Report
                } else {
                    LoopAction::GoOn
                }
            },
            ReadOutcome::Failed => LoopAction::Quit,
            ReadOutcome::Differs => LoopAction::Fail,
        }
    }
}

/// As long as a comparison goes on there is a next turn, and it belongs to a capture
/// that is not at its end.
pub proof fn law_turns_left(t: Turns, side: Side, outcome: ReadOutcome)
    requires
        !t.first_eof || !t.second_eof,
    ensures
        ({
            let (after, action) = t.after_read(side, outcome);
            action == LoopAction::GoOn ==> match after.turn() {
                Some(Side::First) => !after.first_eof,
                Some(Side::Second) => !after.second_eof,
                None => false,
            }
        }),
{
}

} // verus!
