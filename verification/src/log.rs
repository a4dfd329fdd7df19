//! The undo log: an append-only sequence of inverse statements.
//!
//! Every entry gets a sequence number when it is appended. The numbers only
//! grow, and a number is never given twice, not even after entries have been
//! taken off the end of the log.

use vstd::prelude::*;
use vstd::string::*;
use crate::text::{decimal, push_decimal};

verus! {

/// An entry of the log, as a mathematical value.
pub struct EntryModel {
    pub sequence: int,
    pub statement: Seq<char>,
}

/// The log, as a mathematical value: its entries, oldest first, and the last
/// sequence number that was given out.
pub struct LogModel {
    pub entries: Seq<EntryModel>,
    pub last: int,
}

impl LogModel {
    /// The sequence numbers are positive and grow from entry to entry, and
    /// none is beyond the last number given out.
    pub open spec fn well_formed(self) -> bool {
        &&& 0 <= self.last <= i64::MAX
        &&& forall|i: int| 0 <= i < self.entries.len() ==> 0 < (#[trigger] self.entries[i]).sequence
            <= self.last
        &&& forall|i: int, j: int|
            0 <= i < j < self.entries.len() ==> (#[trigger] self.entries[i]).sequence < (
            #[trigger] self.entries[j]).sequence
    }

    /// The log with one more entry, under the next sequence number.
    pub open spec fn append(self, statement: Seq<char>) -> LogModel {
        LogModel {
            entries: self.entries.push(EntryModel { sequence: self.last + 1, statement }),
            last: self.last + 1,
        }
    }

    /// The log without its `n` newest entries, or without any entry if it
    /// holds fewer. The sequence numbers given out stay given out.
    pub open spec fn without_newest(self, n: nat) -> LogModel {
        LogModel {
            entries: if n >= self.entries.len() {
                Seq::empty()
            } else {
                self.entries.take(self.entries.len() - n)
            },
            last: self.last,
        }
    }

    /// The log with only its `keep` newest entries, or with all its entries
    /// if it holds no more. The sequence numbers given out stay given out.
    pub open spec fn retained(self, keep: nat) -> LogModel {
        LogModel {
            entries: if keep >= self.entries.len() {
                self.entries
            } else {
                self.entries.skip(self.entries.len() - keep)
            },
            last: self.last,
        }
    }

    /// The `n` newest entries, newest first; all entries if the log holds
    /// fewer.
    pub open spec fn newest(self, n: nat) -> Seq<EntryModel> {
        let count = if n >= self.entries.len() {
            self.entries.len()
        } else {
            n
        };
        Seq::new(count, |i: int| self.entries[self.entries.len() - 1 - i])
    }
}

/// Appending keeps a log well formed, as long as sequence numbers are left.
pub(crate) proof fn lemma_append_well_formed(log: LogModel, statement: Seq<char>)
    requires
        log.well_formed(),
        log.last < i64::MAX,
    ensures
        log.append(statement).well_formed(),
{
    let after = log.append(statement);
    assert forall|i: int, j: int| 0 <= i < j < after.entries.len() implies (
    #[trigger] after.entries[i]).sequence < (#[trigger] after.entries[j]).sequence by {
        if j < log.entries.len() {
            assert(after.entries[i] == log.entries[i]);
            assert(after.entries[j] == log.entries[j]);
        } else {
            assert(after.entries[i] == log.entries[i]);
        }
    }
    assert forall|i: int| 0 <= i < after.entries.len() implies 0 < (
    #[trigger] after.entries[i]).sequence <= after.last by {
        if i < log.entries.len() {
            assert(after.entries[i] == log.entries[i]);
        }
    }
}

/// Taking entries off the end keeps a log well formed.
proof fn lemma_without_newest_well_formed(log: LogModel, n: nat)
    requires
        log.well_formed(),
    ensures
        log.without_newest(n).well_formed(),
{
    let after = log.without_newest(n);
    assert forall|i: int| 0 <= i < after.entries.len() implies 0 < (
    #[trigger] after.entries[i]).sequence <= after.last by {
        assert(after.entries[i] == log.entries[i]);
    }
    assert forall|i: int, j: int| 0 <= i < j < after.entries.len() implies (
    #[trigger] after.entries[i]).sequence < (#[trigger] after.entries[j]).sequence by {
        assert(after.entries[i] == log.entries[i]);
        assert(after.entries[j] == log.entries[j]);
    }
}

/// Dropping old entries keeps a log well formed.
proof fn lemma_retained_well_formed(log: LogModel, keep: nat)
    requires
        log.well_formed(),
    ensures
        log.retained(keep).well_formed(),
{
    let after = log.retained(keep);
    let dropped = log.entries.len() - after.entries.len();
    assert forall|i: int| 0 <= i < after.entries.len() implies 0 < (
    #[trigger] after.entries[i]).sequence <= after.last by {
        assert(after.entries[i] == log.entries[i + dropped]);
    }
    assert forall|i: int, j: int| 0 <= i < j < after.entries.len() implies (
    #[trigger] after.entries[i]).sequence < (#[trigger] after.entries[j]).sequence by {
        assert(after.entries[i] == log.entries[i + dropped]);
        assert(after.entries[j] == log.entries[j + dropped]);
    }
}

/// One entry of the undo log.
#[derive(Debug, PartialEq, Eq)]
pub struct LogEntry {
    sequence: i64,
    statement: String,
}

impl View for LogEntry {
    type V = EntryModel;

    closed spec fn view(&self) -> EntryModel {
        EntryModel { sequence: self.sequence as int, statement: self.statement@ }
    }
}

impl LogEntry {
    /// An entry as it is read from a stored log.
    pub fn new(sequence: i64, statement: String) -> (entry: LogEntry)
        ensures
            entry@ == (EntryModel { sequence: sequence as int, statement: statement@ }),
    {
        LogEntry { sequence, statement }
    }

    /// The sequence number of the entry.
    pub fn sequence(&self) -> (sequence: i64)
        ensures
            sequence == self@.sequence,
    {
        self.sequence
    }

    /// The inverse statement that the entry holds.
    pub fn statement(&self) -> (statement: &str)
        ensures
            statement@ == self@.statement,
    {
        self.statement.as_str()
    }
}

impl Clone for LogEntry {
    fn clone(&self) -> (copy: LogEntry)
        ensures
            copy@ == self@,
    {
        LogEntry { sequence: self.sequence, statement: self.statement.clone() }
    }
}

/// The views of the entries of a vector, in order.
pub open spec fn entries_view(entries: Seq<LogEntry>) -> Seq<EntryModel> {
    Seq::new(entries.len(), |i: int| entries[i]@)
}

/// The log is full: every sequence number has been given out.
#[derive(Debug, Clone, Copy, PartialEq, Eq, Structural)]
pub struct LogFull;

impl LogFull {
    /// What went wrong, in words.
    pub fn message(&self) -> (message: &'static str)
        ensures
            message@ == "the undo log has given out every sequence number"@,
    {
        "the undo log has given out every sequence number"
    }
}

/// The statement that, run against a stored log, keeps only its `keep`
/// newest entries.
pub open spec fn retention_statement(keep: nat) -> Seq<char> {
    "DELETE FROM undolog WHERE seq NOT IN (SELECT seq FROM undolog ORDER BY seq DESC LIMIT "@
        + decimal(if keep <= i64::MAX {
        keep as int
    } else {
        i64::MAX as int
    }) + ")"@
}

/// The statement that trims a stored log to its `keep` newest entries.
pub fn retention_sql(keep: usize) -> (sql: String)
    ensures
        sql@ == retention_statement(keep as nat),
{
    let wide: u64 = keep as u64;
    let limit: i64 = if wide <= 0x7fff_ffff_ffff_ffffu64 {
        wide as i64
    } else {
        i64::MAX
    };
    let mut sql = String::new();
    sql.append(
        "DELETE FROM undolog WHERE seq NOT IN (SELECT seq FROM undolog ORDER BY seq DESC LIMIT ",
    );
    push_decimal(&mut sql, limit);
    sql.append(")");
    assert(sql@ == retention_statement(keep as nat)) by {
        assert(Seq::<char>::empty()
            + "DELETE FROM undolog WHERE seq NOT IN (SELECT seq FROM undolog ORDER BY seq DESC LIMIT "@
            == "DELETE FROM undolog WHERE seq NOT IN (SELECT seq FROM undolog ORDER BY seq DESC LIMIT "@);
    }
    sql
}

/// The undo log.
#[derive(Debug, PartialEq, Eq)]
pub struct UndoLog {
    entries: Vec<LogEntry>,
    last: i64,
}

impl View for UndoLog {
    type V = LogModel;

    closed spec fn view(&self) -> LogModel {
        LogModel { entries: entries_view(self.entries@), last: self.last as int }
    }
}

impl UndoLog {
    /// What holds of every log in hand: it is well formed.
    #[verifier::type_invariant]
    pub open spec fn valid(self) -> bool {
        self@.well_formed()
    }

    /// An empty log that has given out no sequence number yet.
    pub fn new() -> (log: UndoLog)
        ensures
            log@ == (LogModel { entries: Seq::empty(), last: 0 }),
            log@.well_formed(),
    {
        let entries: Vec<LogEntry> = Vec::new();
        assert(entries_view(entries@) =~= Seq::empty());
        UndoLog { entries, last: 0 }
    }

    /// An empty log that goes on after the sequence number `last`: the next
    /// entry gets the number after it.
    ///
    /// `None` exactly when `last` is negative.
    pub fn resume(last: i64) -> (log: Option<UndoLog>)
        ensures
            match log {
                Some(made) => last >= 0 && made@ == (LogModel {
                    entries: Seq::empty(),
                    last: last as int,
                }),
                None => last < 0,
            },
    {
        if last < 0 {
            return None;
        }
        let entries: Vec<LogEntry> = Vec::new();
        assert(entries_view(entries@) =~= Seq::empty());
        Some(UndoLog { entries, last })
    }

    /// Moves the entries out and leaves an empty log behind.
    fn take_entries(&mut self) -> (entries: Vec<LogEntry>)
        ensures
            entries_view(entries@) == old(self)@.entries,
    {
        let emptied: Vec<LogEntry> = Vec::new();
        assert(entries_view(emptied@) =~= Seq::empty());
        let mut taken = UndoLog { entries: emptied, last: 0 };
        core::mem::swap(self, &mut taken);
        taken.entries
    }

    /// The number of entries.
    pub fn len(&self) -> (count: usize)
        ensures
            count == self@.entries.len(),
            self@.well_formed(),
    {
        proof {
            use_type_invariant(self);
        }
        self.entries.len()
    }

    /// The entry at position `i`, the oldest entry at position 0.
    pub fn entry(&self, i: usize) -> (entry: Option<&LogEntry>)
        ensures
            match entry {
                Some(e) => i < self@.entries.len() && e@ == self@.entries[i as int],
                None => i >= self@.entries.len(),
            },
    {
        if i < self.entries.len() {
            Some(&self.entries[i])
        } else {
            None
        }
    }

    /// Appends a statement and gives back its sequence number.
    ///
    /// Fails, and leaves the log as it is, exactly when every sequence
    /// number has been given out.
    pub fn append(&mut self, statement: String) -> (sequence: Result<i64, LogFull>)
        ensures
            match sequence {
                Ok(number) => old(self)@.last < i64::MAX && final(self)@ == old(self)@.append(
                    statement@,
                ) && number == old(self)@.last + 1,
                Err(_) => old(self)@.last == i64::MAX && final(self)@ == old(self)@,
            },
    {
        if self.last == i64::MAX {
            return Err(LogFull);
        }
        proof {
            use_type_invariant(&*self);
            lemma_append_well_formed(self@, statement@);
        }
        let ghost before = self@;
        let number = self.last + 1;
        let mut entries = self.take_entries();
        entries.push(LogEntry { sequence: number, statement });
        assert(entries_view(entries@) =~= before.append(statement@).entries);
        *self = UndoLog { entries, last: number };
        Ok(number)
    }

    /// The `n` newest entries, newest first; all entries if the log holds
    /// fewer.
    pub fn newest(&self, n: usize) -> (entries: Vec<LogEntry>)
        ensures
            entries_view(entries@) == self@.newest(n as nat),
    {
        let total = self.entries.len();
        let count = if n >= total {
            total
        } else {
            n
        };
        let mut entries: Vec<LogEntry> = Vec::new();
        let mut i: usize = 0;
        while i < count
            invariant
                i <= count <= total,
                total == self.entries.len(),
                entries.len() == i,
                forall|k: int|
                    0 <= k < i ==> (#[trigger] entries[k])@ == self.entries[total - 1 - k]@,
            decreases count - i,
        {
            entries.push(self.entries[total - 1 - i].clone());
            i += 1;
        }
        assert(entries_view(entries@) =~= self@.newest(n as nat));
        entries
    }

    /// Drops all but the `keep` newest entries. This is the one way in
    /// which entries leave a log that have not been undone: the log grows
    /// without bound unless its owner cuts it back.
    pub fn retain_newest(&mut self, keep: usize)
        ensures
            final(self)@ == old(self)@.retained(keep as nat),
    {
        proof {
            use_type_invariant(&*self);
            lemma_retained_well_formed(self@, keep as nat);
        }
        let ghost before = self@;
        let last = self.last;
        let mut entries = self.take_entries();
        let total = entries.len();
        if keep < total {
            let kept = entries.split_off(total - keep);
            assert(entries_view(kept@) =~= before.retained(keep as nat).entries);
            *self = UndoLog { entries: kept, last };
        } else {
            *self = UndoLog { entries, last };
        }
    }

    /// Takes the `n` newest entries off the log, or all entries if the log
    /// holds fewer.
    pub(crate) fn remove_newest(&mut self, n: usize)
        ensures
            final(self)@ == old(self)@.without_newest(n as nat),
    {
        proof {
            use_type_invariant(&*self);
            lemma_without_newest_well_formed(self@, n as nat);
        }
        let ghost before = self@;
        let total = self.entries.len();
        let keep = if n >= total {
            0
        } else {
            total - n
        };
        let last = self.last;
        let mut entries = self.take_entries();
        entries.truncate(keep);
        assert(entries_view(entries@) =~= before.without_newest(n as nat).entries);
        *self = UndoLog { entries, last };
    }
}

} // verus!
