//! How often each directory was visited: the table and its file format.

use vstd::prelude::*;
use vstd::string::*;

use crate::numbers::{decimal, parse_u64, parse_unsigned, push_decimal};
use crate::text::{chars_of, push_char, string_of};

verus! {

/// The count of the first pair of `entries` at or after position `i` whose
/// directory is `dir`; 0 where there is none.
pub open spec fn count_from(entries: Seq<(Seq<char>, u64)>, i: int, dir: Seq<char>) -> u64
    decreases entries.len() - i,
{
    if i < 0 || i >= entries.len() {
        0
    } else if entries[i].0 == dir {
        entries[i].1
    } else {
        count_from(entries, i + 1, dir)
    }
}

/// The number of characters of `s` that stand after its last `c`; all of
/// them where it holds no `c`.
pub open spec fn span_after_last(s: Seq<char>, c: char) -> nat
    decreases s.len(),
{
    if s.len() == 0 || s.last() == c {
        0
    } else {
        1 + span_after_last(s.drop_last(), c)
    }
}

/// The directory and the count that one line of the file holds: the text
/// before the last tab, and the number after it. A line without a tab, or
/// without a number after it, holds nothing.
pub open spec fn freq_line_spec(line: Seq<char>) -> Option<(Seq<char>, u64)> {
    let after = span_after_last(line, '\t') as int;
    if after >= line.len() {
        None
    } else {
        match parse_unsigned(line.skip(line.len() - after), u64::MAX as nat) {
            Some(n) => Some((line.take(line.len() - after - 1), n as u64)),
            None => None,
        }
    }
}

/// The line of the file for a directory and its count.
pub open spec fn freq_line(dir: Seq<char>, count: u64) -> Seq<char> {
    dir + seq!['\t'] + decimal(count as nat)
}

/// One more than `count`, but never more than a count can hold.
pub open spec fn bumped(count: u64) -> u64 {
    if count == u64::MAX {
        count
    } else {
        (count + 1) as u64
    }
}

/// The values of pairs of directory and count, in order.
pub open spec fn freq_views(v: Seq<(String, u64)>) -> Seq<(Seq<char>, u64)> {
    v.map_values(|p: (String, u64)| (p.0@, p.1))
}

/// Changing the count of the first pair for a directory changes the count
/// of that directory and of no other.
proof fn lemma_count_update(
    entries: Seq<(Seq<char>, u64)>,
    i: int,
    count: u64,
    dir: Seq<char>,
    from: int,
)
    requires
        0 <= from <= i < entries.len(),
        forall|j: int| 0 <= j < i ==> (#[trigger] entries[j]).0 != entries[i].0,
    ensures
        count_from(entries.update(i, (entries[i].0, count)), from, dir) == if dir == entries[i].0 {
            count
        } else {
            count_from(entries, from, dir)
        },
    decreases entries.len() - from,
{
    let after = entries.update(i, (entries[i].0, count));
    if from < i {
        assert(entries[from].0 != entries[i].0);
        lemma_count_update(entries, i, count, dir, from + 1);
    } else if dir != entries[i].0 {
        lemma_count_same(entries, after, from + 1, dir);
    }
}

/// Two tables that agree from a position on give the same counts from there.
proof fn lemma_count_same(
    a: Seq<(Seq<char>, u64)>,
    b: Seq<(Seq<char>, u64)>,
    from: int,
    dir: Seq<char>,
)
    requires
        0 <= from,
        a.len() == b.len(),
        forall|j: int| from <= j < a.len() ==> a[j] == b[j],
    ensures
        count_from(a, from, dir) == count_from(b, from, dir),
    decreases a.len() - from,
{
    if from < a.len() {
        lemma_count_same(a, b, from + 1, dir);
    }
}

/// Adding a pair for a directory that has none sets the count of that
/// directory and of no other.
proof fn lemma_count_push(
    entries: Seq<(Seq<char>, u64)>,
    new_dir: Seq<char>,
    count: u64,
    dir: Seq<char>,
    from: int,
)
    requires
        0 <= from <= entries.len(),
        forall|j: int| 0 <= j < entries.len() ==> (#[trigger] entries[j]).0 != new_dir,
    ensures
        count_from(entries.push((new_dir, count)), from, dir) == if dir == new_dir {
            count
        } else {
            count_from(entries, from, dir)
        },
    decreases entries.len() - from,
{
    let pushed = entries.push((new_dir, count));
    if from < entries.len() {
        assert(entries[from].0 != new_dir);
        assert(pushed[from] == entries[from]);
        lemma_count_push(entries, new_dir, count, dir, from + 1);
    } else {
        assert(pushed[from] == (new_dir, count));
        assert(count_from(pushed, from + 1, dir) == 0);
    }
}

/// The table of visit counts.
pub struct DirFreqs {
    counts: Vec<(String, u64)>,
}

impl DirFreqs {
    /// The pairs of directory and count in the table.
    pub closed spec fn entries(&self) -> Seq<(Seq<char>, u64)> {
        freq_views(self.counts@)
    }

    /// How often `dir` was visited according to the table.
    pub open spec fn count(&self, dir: Seq<char>) -> u64 {
        count_from(self.entries(), 0, dir)
    }

    /// A table without visits.
    pub fn new() -> (table: DirFreqs)
        ensures
            forall|dir: Seq<char>| table.count(dir) == 0,
            table.entries().len() == 0,
    {
        DirFreqs { counts: Vec::new() }
    }

    /// The position of the first pair for `dir`.
    fn find(&self, dir: &String) -> (at: Option<usize>)
        ensures
            match at {
                Some(i) => i < self.counts.len() && self.entries()[i as int].0 == dir@
                    && self.count(dir@) == self.entries()[i as int].1 && forall|j: int|
                    0 <= j < i ==> (#[trigger] self.entries()[j]).0 != dir@,
                None => self.count(dir@) == 0 && forall|j: int|
                    0 <= j < self.entries().len() ==> (#[trigger] self.entries()[j]).0 != dir@,
            },
    {
        let mut i: usize = 0;
        while i < self.counts.len()
            invariant
                i <= self.counts.len(),
                self.count(dir@) == count_from(self.entries(), i as int, dir@),
                forall|j: int| 0 <= j < i ==> (#[trigger] self.entries()[j]).0 != dir@,
            decreases self.counts.len() - i,
        {
            assert(self.entries()[i as int] == (self.counts@[i as int].0@, self.counts@[i as int].1));
            if self.counts[i].0 == *dir {
                return Some(i);
            }
            i += 1;
        }
        None
    }

    /// Sets the count of `dir`.
    pub fn set_count(&mut self, dir: String, count: u64)
        ensures
            forall|d: Seq<char>|
                #[trigger] final(self).count(d) == if d == dir@ {
                    count
                } else {
                    old(self).count(d)
                },
    {
        let ghost before = self.entries();
        match self.find(&dir) {
            Some(i) => {
                proof {
                    assert(freq_views(self.counts@.update(i as int, (dir, count))) =~= before.update(
                        i as int,
                        (before[i as int].0, count),
                    ));
                    assert forall|d: Seq<char>|
                        count_from(
                            before.update(i as int, (before[i as int].0, count)),
                            0,
                            d,
                        ) == if d == dir@ {
                            count
                        } else {
                            count_from(before, 0, d)
                        } by {
                        lemma_count_update(before, i as int, count, d, 0);
                    }
                }
                self.counts.set(i, (dir, count));
            },
            None => {
                proof {
                    assert(freq_views(self.counts@.push((dir, count))) =~= before.push(
                        (dir@, count),
                    ));
                    assert forall|d: Seq<char>|
                        count_from(before.push((dir@, count)), 0, d) == if d == dir@ {
                            count
                        } else {
                            count_from(before, 0, d)
                        } by {
                        lemma_count_push(before, dir@, count, d, 0);
                    }
                }
                self.counts.push((dir, count));
            },
        }
    }

    /// Takes in one line of the file. Says whether the line held a count.
    pub fn load_line(&mut self, line: &str) -> (held: bool)
        ensures
            match freq_line_spec(line@) {
                Some((dir, count)) => held && forall|d: Seq<char>|
                    #[trigger] final(self).count(d) == if d == dir {
                        count
                    } else {
                        old(self).count(d)
                    },
                None => !held && final(self).entries() == old(self).entries(),
            },
    {
        match parse_freq_line(line) {
            Some((dir, count)) => {
                self.set_count(dir, count);
                true
            },
            None => false,
        }
    }

    /// The lines of the file for this table: one for each directory.
    pub fn lines(&self) -> (lines: Vec<String>)
        ensures
            lines.len() == self.entries().len(),
            forall|i: int|
                0 <= i < lines.len() ==> (#[trigger] lines@[i])@ == freq_line(
                    self.entries()[i].0,
                    self.entries()[i].1,
                ),
    {
        let mut lines: Vec<String> = Vec::new();
        let mut i: usize = 0;
        while i < self.counts.len()
            invariant
                i <= self.counts.len(),
                lines.len() == i,
                forall|j: int|
                    0 <= j < i ==> (#[trigger] lines@[j])@ == freq_line(
                        self.entries()[j].0,
                        self.entries()[j].1,
                    ),
            decreases self.counts.len() - i,
        {
            assert(self.entries()[i as int] == (self.counts@[i as int].0@, self.counts@[i as int].1));
            lines.push(format_freq_line(self.counts[i].0.as_str(), self.counts[i].1));
            i += 1;
        }
        lines
    }
}

/// Reads the directory and the count out of one line of the file.
pub fn parse_freq_line(line: &str) -> (r: Option<(String, u64)>)
    ensures
        match r {
            Some((dir, count)) => freq_line_spec(line@) == Some((dir@, count)),
            None => freq_line_spec(line@) is None,
        },
{
    let chars = chars_of(line);
    let mut tab: usize = chars.len();
    assert(chars@.take(tab as int) =~= chars@);
    while tab > 0 && chars[tab - 1] != '\t'
        invariant
            tab <= chars.len(),
            span_after_last(chars@, '\t') == (chars.len() - tab) + span_after_last(
                chars@.take(tab as int),
                '\t',
            ),
        decreases tab,
    {
        assert(chars@.take(tab as int).drop_last() =~= chars@.take(tab - 1));
        tab -= 1;
    }
    if tab == 0 {
        return None;
    }
    let number = string_of(&chars, tab, chars.len());
    assert(chars@.subrange(tab as int, chars.len() as int) =~= chars@.skip(tab as int));
    match parse_u64(number.as_str(), u64::MAX) {
        Some(count) => {
            let dir = string_of(&chars, 0, tab - 1);
            assert(chars@.subrange(0, tab - 1) =~= chars@.take(tab - 1));
            Some((dir, count))
        },
        None => None,
    }
}

/// The line of the file for a directory and its count.
pub fn format_freq_line(dir: &str, count: u64) -> (line: String)
    ensures
        line@ == freq_line(dir@, count),
{
    let mut line = dir.to_owned();
    push_char(&mut line, '\t');
    push_decimal(&mut line, count);
    line
}

/// Counts one more visit of `dir`. A count that is full stays as it is.
pub fn increment_dir_usage(table: &mut DirFreqs, dir: &str)
    ensures
        forall|d: Seq<char>|
            #[trigger] final(table).count(d) == if d == dir@ {
                bumped(old(table).count(d))
            } else {
                old(table).count(d)
            },
{
    let current = get_count(table, dir);
    let next = if current == u64::MAX {
        current
    } else {
        current + 1
    };
    table.set_count(dir.to_owned(), next);
}

/// How often `dir` was visited; 0 for a directory that the table does not
/// know.
pub fn get_count(table: &DirFreqs, dir: &str) -> (count: u64)
    ensures
        count == table.count(dir@),
{
    let wanted = dir.to_owned();
    match table.find(&wanted) {
        Some(i) => table.counts[i].1,
        None => 0,
    }
}

} // verus!
