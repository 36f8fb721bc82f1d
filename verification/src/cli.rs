//! Routing of the one-shot command flags: exactly one of the five flags
//! selects an operation; more than one is a usage error, and none at all
//! is the unknown command.
use vstd::prelude::*;

verus! {

/// The five mutually exclusive command flags, as plain values.
#[derive(Clone, Copy, PartialEq, Eq, Structural, Debug)]
pub struct Options {
    /// Adds a task to the list.
    pub add: bool,
    /// Removes a task from the list.
    pub remove: bool,
    /// Marks a task as complete.
    pub complete: bool,
    /// Prints the list of all tasks.
    pub list: bool,
    /// Updates a task's title, description or due date.
    pub update: bool,
}

/// The operation one invocation performs.
#[derive(Clone, Copy, PartialEq, Eq, Structural, Debug)]
pub enum Commands {
    Add,
    Remove,
    Complete,
    List,
    Update,
    NoCommand,
}

/// How many of the flags are set.
pub open spec fn spec_flag_count(o: Options) -> int {
    (if o.add {
        1 as int
    } else {
        0 as int
    }) + (if o.remove {
        1 as int
    } else {
        0 as int
    }) + (if o.complete {
        1 as int
    } else {
        0 as int
    }) + (if o.list {
        1 as int
    } else {
        0 as int
    }) + (if o.update {
        1 as int
    } else {
        0 as int
    })
}

/// The command a flag set selects, trying the flags in the fixed order
/// add, complete, remove, list, update.
pub open spec fn spec_route(o: Options) -> Commands {
    if o.add {
        Commands::Add
    } else if o.complete {
        Commands::Complete
    } else if o.remove {
        Commands::Remove
    } else if o.list {
        Commands::List
    } else if o.update {
        Commands::Update
    } else {
        Commands::NoCommand
    }
}

impl Options {
    /// Decides what one invocation does: more than one flag is refused
    /// as a usage error, no flag at all is the unknown command.
    pub fn route(&self) -> (r: Option<Commands>)
        ensures
            spec_flag_count(*self) > 1 ==> r is None,
            spec_flag_count(*self) <= 1 ==> r == Some(spec_route(*self)),
    {
        let count: u32 = (if self.add {
            1
        } else {
            0
        }) + (if self.remove {
            1
        } else {
            0
        }) + (if self.complete {
            1
        } else {
            0
        }) + (if self.list {
            1
        } else {
            0
        }) + (if self.update {
            1
        } else {
            0
        });
        if count > 1 {
            return None;
        }
        if self.add {
            Some(Commands::Add)
        } else if self.complete {
            Some(Commands::Complete)
        } else if self.remove {
            Some(Commands::Remove)
        } else if self.list {
            Some(Commands::List)
        } else if self.update {
            Some(Commands::Update)
        } else {
            Some(Commands::NoCommand)
        }
    }
}

} // verus!
