//! The startup tasks: the catalog is rebuilt in four tasks, each announced with a
//! percentage and a message before it runs.

use vstd::prelude::*;
use vstd::string::StringExecFns;

verus! {

/// One task of the startup.
#[derive(Clone, Copy, Debug, PartialEq, Eq, Structural)]
pub enum StartupTask {
    /// Remove the catalog of the last run.
    RemoveOldDb,
    /// Create the tables of the catalog.
    Setup,
    /// Fill in the consoles.
    ConsoleFill,
    /// Read the listing of every console.
    Scrape,
}

/// A startup notice: how far the startup is, and what it does.
#[derive(Clone, Debug, PartialEq, Eq)]
pub struct StartupNotice {
    pub percent: u8,
    pub message: String,
}

/// What follows a task.
#[derive(Debug, PartialEq, Eq)]
pub enum StartupNext {
    /// The startup goes on: another task follows.
    Continue(StartupTask),
    /// The startup is done.
    Completed,
    /// The startup has failed, with this message.
    Aborted(String),
}

/// The percentage at which the startup begins.
pub const STARTING_PERCENT: u8 = 0;

/// The percentage at which the startup is done.
pub const DONE_PERCENT: u8 = 100;

impl StartupTask {
    /// The percentage announced before the task.
    pub open spec fn percent(self) -> u8 {
        match self {
            StartupTask::RemoveOldDb => 5,
            StartupTask::Setup => 15,
            StartupTask::ConsoleFill => 25,
            StartupTask::Scrape => 30,
        }
    }

    /// The message announced before the task.
    pub open spec fn message(self) -> Seq<char> {
        match self {
            StartupTask::RemoveOldDb => "Removing old DB…"@,
            StartupTask::Setup => "Creating DB tables…"@,
            StartupTask::ConsoleFill => "Populating consoles…"@,
            StartupTask::Scrape => "Scraping…"@,
        }
    }

    /// How the message of a failure of the task begins.
    pub open spec fn failure_prefix(self) -> Seq<char> {
        match self {
            StartupTask::RemoveOldDb => "remove_old_db failed: "@,
            StartupTask::Setup => "setup failed: "@,
            StartupTask::ConsoleFill => "console_fill failed: "@,
            StartupTask::Scrape => "scrape failed: "@,
        }
    }

    /// The task after this one.
    pub open spec fn successor(self) -> Option<StartupTask> {
        match self {
            StartupTask::RemoveOldDb => Some(StartupTask::Setup),
            StartupTask::Setup => Some(StartupTask::ConsoleFill),
            StartupTask::ConsoleFill => Some(StartupTask::Scrape),
            StartupTask::Scrape => None,
        }
    }

    /// The task that the startup begins with.
    pub fn first() -> (task: StartupTask)
        ensures
            task == StartupTask::RemoveOldDb,
    {
        StartupTask::RemoveOldDb
    }

    /// The notice that goes out before the task runs.
    pub fn announce(&self) -> (notice: StartupNotice)
        ensures
            notice.percent == self.percent(),
            notice.message@ == self.message(),
    {
        match self {
            StartupTask::RemoveOldDb => StartupNotice {
                percent: 5,
                message: "Removing old DB…".to_owned(),
            },
            StartupTask::Setup => StartupNotice {
                percent: 15,
                message: "Creating DB tables…".to_owned(),
            },
            StartupTask::ConsoleFill => StartupNotice {
                percent: 25,
                message: "Populating consoles…".to_owned(),
            },
            StartupTask::Scrape => StartupNotice { percent: 30, message: "Scraping…".to_owned() },
        }
    }

    /// Decides what follows the task, given how it ended: a failure ends the startup with
    /// a message that names the task, and a success leads to the next task or, after the
    /// last, to the end.
    pub fn next(&self, outcome: Result<(), String>) -> (next: StartupNext)
        ensures
            match outcome {
                Err(error) => next matches StartupNext::Aborted(message) && message@
                    == self.failure_prefix() + error@,
                Ok(_) => match self.successor() {
                    Some(task) => next == StartupNext::Continue(task),
                    None => next == StartupNext::Completed,
                },
            },
    {
        match outcome {
            Err(error) => {
                let mut message: String = match self {
                    StartupTask::RemoveOldDb => "remove_old_db failed: ".to_owned(),
                    StartupTask::Setup => "setup failed: ".to_owned(),
                    StartupTask::ConsoleFill => "console_fill failed: ".to_owned(),
                    StartupTask::Scrape => "scrape failed: ".to_owned(),
                };
                message.append(error.as_str());
                StartupNext::Aborted(message)
            },
            Ok(_) => match self {
                StartupTask::RemoveOldDb => StartupNext::Continue(StartupTask::Setup),
                StartupTask::Setup => StartupNext::Continue(StartupTask::ConsoleFill),
                StartupTask::ConsoleFill => StartupNext::Continue(StartupTask::Scrape),
                StartupTask::Scrape => StartupNext::Completed,
            },
        }
    }
}

/// The notice that opens the startup.
pub fn starting_notice() -> (notice: StartupNotice)
    ensures
        notice.percent == STARTING_PERCENT,
        notice.message@ == "Starting…"@,
{
    StartupNotice { percent: STARTING_PERCENT, message: "Starting…".to_owned() }
}

/// The notice that closes the startup.
pub fn done_notice() -> (notice: StartupNotice)
    ensures
        notice.percent == DONE_PERCENT,
        notice.message@ == "Done!"@,
{
    StartupNotice { percent: DONE_PERCENT, message: "Done!".to_owned() }
}

/// The percentage of the startup once `done` of `total` consoles are read: the reading
/// takes the startup from 30 to 100 in equal steps, rounded down. It is at 100 once all
/// consoles are read, also where there is none to read.
pub open spec fn scrape_progress(done: nat, total: nat) -> nat {
    if done >= total {
        100
    } else {
        30 + 70 * done / total
    }
}

/// Computes the percentage of the startup once `done` of `total` consoles are read.
pub fn scrape_percent(done: usize, total: usize) -> (percent: u8)
    ensures
        percent == scrape_progress(done as nat, total as nat),
        30 <= percent <= 100,
{
    if done >= total {
        return 100;
    }
    let d: u128 = done as u128;
    let t: u128 = total as u128;
    let ghost di: int = d as int;
    let ghost ti: int = t as int;
    assert((70 * di) / ti <= 70) by (nonlinear_arith)
        requires
            0 <= di <= ti,
            ti > 0,
    ;
    (30 + 70 * d / t) as u8
}

/// The notices of a startup never fall: each task is announced at a higher percentage
/// than the one before it, from the start at 0 to the end at 100.
pub proof fn lemma_startup_percent_rises(task: StartupTask)
    ensures
        STARTING_PERCENT < task.percent() < DONE_PERCENT,
        task.successor() matches Some(later) ==> task.percent() < later.percent(),
{
}

} // verus!
