//! Worker jobs: a queued form of a parsed command, as a job queue hands it
//! to an execution unit.

use vstd::prelude::*;
use crate::memory::{Command, Commands, CommandView, Database, exec, res_view, step};

verus! {

/// The verbs a queued job can carry.
#[derive(Clone, Copy, PartialEq, Eq, Structural, Debug)]
pub enum Job {
    Insert,
    Get,
    List,
    Delete,
    Clear,
    Exit,
}

/// The command verb a job stands for.
pub open spec fn job_verb(j: Job) -> Commands {
    match j {
        Job::Insert => Commands::Insert,
        Job::Get => Commands::Get,
        Job::List => Commands::List,
        Job::Delete => Commands::Delete,
        Job::Clear => Commands::Clear,
        Job::Exit => Commands::Exit,
    }
}

/// Runtime form of `job_verb`.
fn job_verb_exec(j: Job) -> (c: Commands)
    ensures
        c == job_verb(j),
{
    match j {
        Job::Insert => Commands::Insert,
        Job::Get => Commands::Get,
        Job::List => Commands::List,
        Job::Delete => Commands::Delete,
        Job::Clear => Commands::Clear,
        Job::Exit => Commands::Exit,
    }
}

/// A queued job: a verb with the arguments its line carried.
#[derive(Clone, PartialEq, Eq, Debug)]
pub struct Args {
    pub command: Job,
    pub key: Option<String>,
    pub value: Option<String>,
    pub multiplier: Option<i64>,
}

impl Args {
    /// The arguments the verb needs are present.
    pub open spec fn complete(&self) -> bool {
        match self.command {
            Job::Insert => self.key is Some && self.value is Some,
            Job::Get => self.key is Some,
            Job::Delete => self.key is Some,
            _ => true,
        }
    }

    /// The command this job applies: an absent key reads as the empty key,
    /// which the per-command policy then rejects.
    pub open spec fn as_command(&self) -> CommandView {
        CommandView {
            command: job_verb(self.command),
            key: match self.key {
                Some(k) => k@,
                None => Seq::empty(),
            },
            value: self.value.deep_view(),
        }
    }

    /// Run this job as one execution unit against the database, under the
    /// per-command policy (validation, mutation, snapshot).
    pub fn execute(&self, db: &mut Database) -> (r: Result<String, String>)
        requires
            old(db).wf(),
            self.complete(),
            self.command != Job::Exit,
        ensures
            final(db).wf(),
            final(db)@ == step(self.as_command(), old(db)@).0,
            res_view(r) == step(self.as_command(), old(db)@).1,
    {
        let key: String = match &self.key {
            Some(k) => k.clone(),
            None => String::new(),
        };
        let value: Option<String> = match &self.value {
            Some(v) => Some(v.clone()),
            None => None,
        };
        let command = Command { command: job_verb_exec(self.command), key, value };
        proof {
            assert(command@ =~= self.as_command());
        }
        exec(&command, db)
    }
}

} // verus!
