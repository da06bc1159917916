//! Sample data held in an extension map: a configuration, a database and a counting service.
use vstd::prelude::*;

verus! {

/// A sample configuration.
#[derive(Default)]
pub struct FakeConfig {
    pub some_flag: bool,
    pub some_option: String,
}

/// A sample database connection.
#[derive(Default)]
pub struct FakeDatabase {
    pub host: String,
    pub port: u16,
    pub user: String,
    pub pass: String,
}

/// The state of a [`FakeService`]: how many times it was asked for a value.
#[derive(Default)]
pub struct FakeServiceState {
    pub counter: usize,
}

/// A sample service that counts its uses.
#[derive(Default)]
pub struct FakeService {
    pub state: FakeServiceState,
}

impl FakeService {
    /// A service that has not been used yet.
    pub fn new() -> (r: Self)
        ensures
            r.state.counter == 0,
    {
        FakeService { state: FakeServiceState { counter: 0 } }
    }

    /// Counts one more use and returns the number of uses so far.
    pub fn get(&mut self) -> (r: usize)
        requires
            old(self).state.counter < usize::MAX,
        ensures
            r == old(self).state.counter + 1,
            final(self).state.counter == r,
    {
        self.state.counter = self.state.counter + 1;
        self.state.counter
    }
}

} // verus!
