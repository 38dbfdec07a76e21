//! The state of one interpreter session, and what a line does to it.

use vstd::prelude::*;
use vstd::string::*;

use crate::aliases::{expand_alias, AliasManager};
use crate::error::{ErrorView, ShellError};
use crate::executor::{Action, ActionView, Event, EventView};
use crate::jobs::{JobManager, JobView, TableView};
use crate::expand::{find_char, span_until};
use crate::numbers::{decimal, parse_u64, parse_unsigned, push_decimal};
use crate::shell_config::ShellConfig;
use crate::text::{
    chars_of, push_char, split_whitespace, split_words, string_of, texts, trim, trim_text,
};

verus! {

/// The state of one session.
pub struct Shell {
    /// The status of the last line that ran.
    pub last_status: i32,
    /// The background jobs.
    pub jobs: JobManager,
    /// The aliases.
    pub aliases: AliasManager,
    /// The settings.
    pub config: ShellConfig,
}

/// How the handling of one line ended.
#[derive(Debug, PartialEq, Eq)]
pub enum LineResult {
    /// The line could not be parsed.
    ParseError(ShellError),
    /// The line ran and ended with this status.
    Finished(i32),
    /// The line failed while it ran.
    Failed(ShellError),
}

/// The line that is parsed for the input line `line`: nothing for a blank
/// line and for a comment line, which starts with `#`; else the line without
/// the white space at its ends, after alias expansion.
pub open spec fn prepared(table: Map<Seq<char>, Seq<char>>, line: Seq<char>) -> Option<Seq<char>> {
    let t = trim(line);
    if t.len() == 0 || t[0] == '#' {
        None
    } else {
        Some(expand_alias(table, t))
    }
}

/// The status after a line ended: 1 after a parse error, the line's status
/// where it ran to its end, and the status from before where it failed while
/// it ran.
pub open spec fn status_after(before: int, result: LineResult) -> int {
    match result {
        LineResult::ParseError(_) => 1,
        LineResult::Finished(status) => status as int,
        LineResult::Failed(_) => before,
    }
}

/// Whether the time that a line took is shown, given the settings: timing
/// must be on, and the time must reach the threshold unless that is 0.
pub open spec fn timing_shown(show: bool, threshold: u64, elapsed_ms: u64) -> bool {
    show && (threshold == 0 || elapsed_ms >= threshold)
}

/// The line that `alias` prints for one alias.
pub open spec fn alias_listing(name: Seq<char>, value: Seq<char>) -> Seq<char> {
    "alias "@ + name + seq!['=', '\''] + value + seq!['\'']
}

/// The line that `jobs` prints for one job.
pub open spec fn job_listing(job: JobView) -> Seq<char> {
    seq!['['] + decimal(job.id as nat) + seq![']', ' '] + (if job.child is Some {
        "Running"@
    } else {
        "Done"@
    }) + seq![' '] + job.command
}

impl Shell {
    /// Whether the tables of the session are valid.
    pub open spec fn well_formed(&self) -> bool {
        self.aliases.well_formed() && self.jobs@.well_formed()
    }

    /// A fresh session with the given settings: status 0, no aliases, no
    /// jobs.
    pub fn new(config: ShellConfig) -> (shell: Shell)
        ensures
            shell.well_formed(),
            shell.last_status == 0,
            shell.aliases@ == Map::<Seq<char>, Seq<char>>::empty(),
            shell.jobs@.jobs.len() == 0,
            shell.jobs@.next_id == 1,
            shell.config == config,
    {
        Shell { last_status: 0, jobs: JobManager::new(), aliases: AliasManager::new(), config }
    }

    /// The line to parse for an input line, or `None` where the input line is
    /// blank or a comment.
    pub fn prepare_line(&self, line: &str) -> (r: Option<String>)
        requires
            self.well_formed(),
        ensures
            match r {
                Some(text) => prepared(self.aliases@, line@) == Some(text@),
                None => prepared(self.aliases@, line@) is None,
            },
    {
        let trimmed = trim_text(line);
        let chars = chars_of(trimmed.as_str());
        if chars.len() == 0 || chars[0] == '#' {
            return None;
        }
        Some(self.aliases.expand(trimmed.as_str()))
    }

    /// Records how a line ended.
    pub fn finish_line(&mut self, result: &LineResult)
        ensures
            final(self).last_status == status_after(old(self).last_status as int, *result),
            final(self).jobs == old(self).jobs,
            final(self).aliases == old(self).aliases,
            final(self).config == old(self).config,
    {
        match result {
            LineResult::ParseError(_) => {
                self.last_status = 1;
            },
            LineResult::Finished(status) => {
                self.last_status = *status;
            },
            LineResult::Failed(_) => {},
        }
    }

    /// Whether the time that the last line took is to be shown.
    pub fn shows_timing(&self, elapsed_ms: u64) -> (shown: bool)
        ensures
            shown == timing_shown(
                self.config.show_timing,
                self.config.timing_threshold_ms,
                elapsed_ms,
            ),
    {
        self.config.show_timing && (self.config.timing_threshold_ms == 0 || elapsed_ms
            >= self.config.timing_threshold_ms)
    }

    /// Carries out an action that only concerns the tables of the session,
    /// and returns its event: defining and removing an alias, taking the
    /// handle of a job, entering a job. Every other action is left to the
    /// caller: the result is `None` and the session stays as it is.
    pub fn perform(&mut self, action: &Action) -> (event: Option<Event>)
        requires
            old(self).well_formed(),
        ensures
            final(self).well_formed(),
            final(self).last_status == old(self).last_status,
            final(self).config == old(self).config,
            match action@ {
                ActionView::SetAlias { name, value } => {
                    &&& event matches Some(e) && e@ == EventView::Done
                    &&& final(self).aliases@ == old(self).aliases@.insert(name, value)
                    &&& final(self).jobs == old(self).jobs
                },
                ActionView::RemoveAlias { name } => {
                    &&& event matches Some(e) && e@ == EventView::Removed(
                        old(self).aliases@.contains_key(name),
                    )
                    &&& final(self).aliases@ == old(self).aliases@.remove(name)
                    &&& final(self).jobs == old(self).jobs
                },
                ActionView::TakeJob { id } => {
                    &&& event matches Some(Event::Child(pid))
                    &&& final(self).aliases == old(self).aliases
                    &&& match pid {
                        Some(p) => exists|i: int|
                            0 <= i < old(self).jobs@.jobs.len() && (
                            #[trigger] old(self).jobs@.jobs[i]).id == id
                                && old(self).jobs@.jobs[i].child == Some(p) && final(self).jobs@
                                == old(self).jobs@.taken(i),
                        None => final(self).jobs@ == old(self).jobs@,
                    }
                },
                ActionView::Register { command, pid } => {
                    &&& final(self).aliases == old(self).aliases
                    &&& if old(self).jobs@.next_id < usize::MAX {
                        &&& event matches Some(e) && e@ == EventView::Registered(
                            old(self).jobs@.next_id,
                        )
                        &&& final(self).jobs@ == old(self).jobs@.added(command, pid)
                    } else {
                        &&& event matches Some(e) && e@ == EventView::Failed(
                            ErrorView::Other("job table is full"@),
                        )
                        &&& final(self).jobs@ == old(self).jobs@
                    }
                },
                _ => event is None && final(self).jobs == old(self).jobs && final(self).aliases
                    == old(self).aliases,
            },
    {
        match action {
            Action::SetAlias { name, value } => {
                self.aliases.set(name.clone(), value.clone());
                Some(Event::Done)
            },
            Action::RemoveAlias { name } => {
                let removed = self.aliases.unset(name.as_str());
                Some(Event::Removed(removed))
            },
            Action::TakeJob { id } => {
                let pid = self.jobs.take_child(*id);
                Some(Event::Child(pid))
            },
            Action::Register { command, pid } => {
                if self.jobs.has_room() {
                    let id = self.jobs.add_job(command.clone(), *pid);
                    Some(Event::Registered(id))
                } else {
                    Some(Event::Failed(ShellError::other("job table is full")))
                }
            },
            _ => None,
        }
    }

    /// The lines that `alias` prints: one for each alias.
    pub fn alias_lines(&self) -> (lines: Vec<String>)
        requires
            self.well_formed(),
        ensures
            lines.len() == self.aliases.entries().len(),
            forall|i: int|
                0 <= i < lines.len() ==> (#[trigger] lines@[i])@ == alias_listing(
                    self.aliases.entries()[i].0,
                    self.aliases.entries()[i].1,
                ),
    {
        let pairs = self.aliases.list();
        let mut lines: Vec<String> = Vec::new();
        let mut i: usize = 0;
        while i < pairs.len()
            invariant
                i <= pairs.len(),
                crate::expand::pair_views(pairs@) == self.aliases.entries(),
                lines.len() == i,
                forall|j: int|
                    0 <= j < i ==> (#[trigger] lines@[j])@ == alias_listing(
                        self.aliases.entries()[j].0,
                        self.aliases.entries()[j].1,
                    ),
            decreases pairs.len() - i,
        {
            assert(crate::expand::pair_views(pairs@)[i as int] == (
                pairs@[i as int].0@,
                pairs@[i as int].1@,
            ));
            let mut line = "alias ".to_owned();
            line.append(pairs[i].0.as_str());
            push_char(&mut line, '=');
            push_char(&mut line, '\'');
            line.append(pairs[i].1.as_str());
            push_char(&mut line, '\'');
            assert(line@ =~= alias_listing(pairs@[i as int].0@, pairs@[i as int].1@));
            lines.push(line);
            i += 1;
        }
        lines
    }

    /// The lines that `jobs` prints: one for each job in the table.
    pub fn job_lines(&self) -> (lines: Vec<String>)
        ensures
            lines.len() == self.jobs@.jobs.len(),
            forall|i: int|
                0 <= i < lines.len() ==> (#[trigger] lines@[i])@ == job_listing(self.jobs@.jobs[i]),
    {
        let jobs = self.jobs.list_jobs();
        let mut lines: Vec<String> = Vec::new();
        let mut i: usize = 0;
        while i < jobs.len()
            invariant
                i <= jobs.len(),
                crate::jobs::job_views(jobs@) == self.jobs@.jobs,
                lines.len() == i,
                forall|j: int|
                    0 <= j < i ==> (#[trigger] lines@[j])@ == job_listing(self.jobs@.jobs[j]),
            decreases jobs.len() - i,
        {
            assert(crate::jobs::job_views(jobs@)[i as int] == jobs@[i as int]@);
            let mut line = String::new();
            push_char(&mut line, '[');
            push_decimal(&mut line, jobs[i].id as u64);
            push_char(&mut line, ']');
            push_char(&mut line, ' ');
            let ghost head = line@;
            if jobs[i].child.is_some() {
                line.append("Running");
            } else {
                line.append("Done");
            }
            push_char(&mut line, ' ');
            line.append(jobs[i].command.as_str());
            assert(line@ =~= job_listing(jobs@[i as int]@));
            lines.push(line);
            i += 1;
        }
        lines
    }
}

/// The clock ticks that a process has spent in user mode and in system
/// mode, as its status line tells them: of the fields that follow the first
/// `)`, the thirteenth and the fourteenth. A line without `)`, with too few
/// fields or with a field that is no number tells nothing.
pub open spec fn stat_times(content: Seq<char>) -> Option<(u64, u64)> {
    let close = span_until(content, 0, ')') as int;
    let fields = split_whitespace(content.skip(close + 1));
    if close >= content.len() || fields.len() < 14 {
        None
    } else {
        match (
            parse_unsigned(fields[12], u64::MAX as nat),
            parse_unsigned(fields[13], u64::MAX as nat),
        ) {
            (Some(user), Some(system)) => Some((user as u64, system as u64)),
            _ => None,
        }
    }
}

/// Reads the clock ticks that a process has spent in user mode and in
/// system mode out of its status line.
pub fn get_child_process_times(content: &str) -> (times: Option<(u64, u64)>)
    ensures
        times == stat_times(content@),
{
    let chars = chars_of(content);
    let close = find_char(&chars, 0, ')');
    if close >= chars.len() {
        return None;
    }
    let rest = string_of(&chars, close + 1, chars.len());
    assert(chars@.subrange(close + 1, chars.len() as int) =~= chars@.skip(close + 1));
    let fields = split_words(rest.as_str());
    if fields.len() < 14 {
        return None;
    }
    proof {
        assert(texts(fields@)[12] == fields@[12]@);
        assert(texts(fields@)[13] == fields@[13]@);
    }
    match (parse_u64(fields[12].as_str(), u64::MAX), parse_u64(fields[13].as_str(), u64::MAX)) {
        (Some(user), Some(system)) => Some((user, system)),
        _ => None,
    }
}

} // verus!
