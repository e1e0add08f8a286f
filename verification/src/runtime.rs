//! The launcher's run-time state: what was launched last.

use vstd::prelude::*;

verus! {

/// The instance launched last.
pub struct LastLaunchedInstance {
    pub version_id: String,
    pub name: String,
    /// The instance's directory (for its icon).
    pub dir: String,
}

impl Clone for LastLaunchedInstance {
    fn clone(&self) -> (r: Self)
        ensures
            r == *self,
    {
        LastLaunchedInstance { version_id: self.version_id.clone(), name: self.name.clone(), dir: self.dir.clone() }
    }
}

/// The launcher's run-time state.
pub struct RuntimeState {
    pub last_launched_instance: Option<LastLaunchedInstance>,
}

impl Default for RuntimeState {
    fn default() -> (s: Self)
        ensures
            s.last_launched_instance is None,
    {
        RuntimeState { last_launched_instance: None }
    }
}

impl RuntimeState {
    /// Records the instance launched last; nothing else changes.
    pub fn record_last_launched(&mut self, record: LastLaunchedInstance)
        ensures
            final(self).last_launched_instance == Some(record),
    {
        self.last_launched_instance = Some(record);
    }

    /// The instance launched last, if any.
    pub fn last_launched(&self) -> (r: Option<LastLaunchedInstance>)
        ensures
            r == self.last_launched_instance,
    {
        match &self.last_launched_instance {
            Some(l) => Some(l.clone()),
            None => None,
        }
    }
}

/// What is read back after a record is what was recorded.
pub proof fn record_then_read(s: RuntimeState, record: LastLaunchedInstance)
    ensures
        (RuntimeState { last_launched_instance: Some(record) }).last_launched_instance == Some(record),
{
}

} // verus!
