use vstd::prelude::*;
use crate::input::Intent;

verus! {

/// The state of the simulation loop: the intent the robot carries out at
/// each step, and whether the loop goes on.
#[derive(Clone, Copy, Debug, PartialEq, Eq, Structural)]
pub struct Driver {
    pub current: Intent,
    pub running: bool,
}

impl Driver {
    /// A running loop whose robot stands still.
    pub fn new() -> (d: Self)
        ensures
            d.current == Intent::Stop,
            d.running,
    {
        Driver { current: Intent::Stop, running: true }
    }

    /// Takes in what a poll for keys gave.  Quit stops the loop and keeps
    /// the current intent; another intent becomes the current one; no intent
    /// changes nothing.  Returns whether to go on polling in this step.
    ///
    /// The robot is never handed `Quit`: a driver whose intent is not `Quit`
    /// keeps it so.
    pub fn handle(&mut self, received: Option<Intent>) -> (keep_polling: bool)
        ensures
            match received {
                Some(Intent::Quit) => {
                    &&& !final(self).running
                    &&& final(self).current == old(self).current
                    &&& !keep_polling
                },
                Some(i) => {
                    &&& final(self).running == old(self).running
                    &&& final(self).current == i
                    &&& keep_polling
                },
                None => {
                    &&& *final(self) == *old(self)
                    &&& keep_polling
                },
            },
            old(self).current != Intent::Quit ==> final(self).current != Intent::Quit,
    {
        match received {
            Some(Intent::Quit) => {
                self.running = false;
                false
            },
            Some(i) => {
                self.current = i;
                true
            },
            None => true,
        }
    }
}

} // verus!
