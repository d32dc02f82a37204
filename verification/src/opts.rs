//! Startup options for serving: the bind address, the guest program to run,
//! and what the execution pool is bootstrapped with. The gateway passes the
//! pool's bootstrap values through unexamined; parsing the bind address into
//! a socket address is the listener's work, outside this crate.

use vstd::prelude::*;

verus! {

/// What serving starts from.
pub struct ServeOpt {
    /// The address to bind the listener to, as written on the command line.
    pub addr: String,
    /// The guest program: its name and the path it is loaded from.
    pub command: String,
    /// Directories pre-opened for the guests.
    pub pre_opened_directories: Vec<String>,
    /// Arguments handed through to the guest program.
    pub args: Vec<String>,
}

impl ServeOpt {
    /// The name the guest program goes by.
    pub fn get_name(&self) -> (r: &String)
        ensures
            r@ == self.command@,
    {
        &self.command
    }

    /// The path the guest program is loaded from.
    pub fn get_wasm_path(&self) -> (r: &String)
        ensures
            r@ == self.command@,
    {
        &self.command
    }

    /// The directories pre-opened for the guests.
    pub fn get_preopen_dirs(&self) -> (r: &Vec<String>)
        ensures
            r@ == self.pre_opened_directories@,
    {
        &self.pre_opened_directories
    }

    /// The guest program's arguments, in order.
    pub fn to_args_unchecked(&self) -> (r: &Vec<String>)
        ensures
            r@ == self.args@,
    {
        &self.args
    }
}

} // verus!
