//! Controls for what cannot be undone: a press asks, and a second one does
//! it.

use vstd::prelude::*;

verus! {

/// Where such a control stands.
#[derive(Debug, Clone, PartialEq, Eq)]
pub struct TwoStep {
    /// The question is on screen.
    pub confirming: bool,
    /// Why the last try failed.
    pub problem: Option<String>,
}

/// What is pressed.
#[derive(Debug, Clone, Copy, PartialEq, Eq, Structural)]
pub enum Press {
    /// The control itself.
    Ask,
    /// "Yes".
    Confirm,
    /// "No".
    Decline,
}

/// What a press makes of a control, and whether the thing is done now. It is
/// done only where the question was on screen and is answered with yes.
pub open spec fn pressed(control: TwoStep, press: Press) -> (TwoStep, bool) {
    (
        TwoStep {
            confirming: press == Press::Ask,
            problem: if press == Press::Ask {
                None
            } else {
                control.problem
            },
        },
        control.confirming && press == Press::Confirm,
    )
}

/// A control nobody has touched.
pub open spec fn untouched() -> TwoStep {
    TwoStep { confirming: false, problem: None }
}

impl TwoStep {
    /// A control nobody has touched.
    pub fn new() -> (r: Self)
        ensures
            r == untouched(),
    {
        TwoStep { confirming: false, problem: None }
    }

    /// Press something; whether the thing is to be done now.
    pub fn press(&mut self, press: Press) -> (act: bool)
        ensures
            (*final(self), act) == pressed(*old(self), press),
    {
        match press {
            Press::Ask => {
                self.problem = None;
                self.confirming = true;
                false
            },
            Press::Confirm => {
                let act = self.confirming;
                self.confirming = false;
                act
            },
            Press::Decline => {
                self.confirming = false;
                false
            },
        }
    }

    /// Take note of how doing it went.
    pub fn note_outcome(&mut self, outcome: Result<(), String>)
        ensures
            final(self).confirming == old(self).confirming,
            final(self).problem == (match outcome {
                Ok(_) => None,
                Err(why) => Some(why),
            }),
    {
        self.problem = match outcome {
            Ok(_) => None,
            Err(why) => Some(why),
        };
    }
}

/// The control after a run of presses, from one nobody has touched.
pub open spec fn after(presses: Seq<Press>) -> TwoStep
    decreases presses.len(),
{
    if presses.len() == 0 {
        untouched()
    } else {
        pressed(after(presses.drop_last()), presses.last()).0
    }
}

/// Whether the last press of such a run does the thing.
pub open spec fn acts(presses: Seq<Press>) -> bool {
    presses.len() > 0 && pressed(after(presses.drop_last()), presses.last()).1
}

/// One press never does the thing: the press that does it is always a yes
/// that directly follows a question.
pub proof fn it_takes_two_presses(presses: Seq<Press>)
    ensures
        acts(presses) <==> presses.len() >= 2 && presses[presses.len() - 2] == Press::Ask
            && presses[presses.len() - 1] == Press::Confirm,
{
    if presses.len() > 0 {
        let asked = presses.drop_last();
        if asked.len() > 0 {
            assert(asked.last() == presses[presses.len() - 2]);
        }
    }
}

/// A press asks, and forgets what went wrong before; a yes or a no ends the
/// question and keeps what went wrong; and only a yes to a question does the
/// thing.
pub proof fn a_press_does_one_thing(control: TwoStep)
    ensures
        pressed(control, Press::Ask).0 == (TwoStep { confirming: true, problem: None }),
        !pressed(control, Press::Ask).1,
        pressed(control, Press::Confirm).0 == (TwoStep {
            confirming: false,
            problem: control.problem,
        }),
        pressed(control, Press::Confirm).1 <==> control.confirming,
        pressed(control, Press::Decline).0 == (TwoStep {
            confirming: false,
            problem: control.problem,
        }),
        !pressed(control, Press::Decline).1,
        !untouched().confirming,
        untouched().problem is None,
{
}

} // verus!
