//! The history store: a bounded record of the lines entered, with a cursor
//! for browsing it and a mark of what has been appended to a file.

use vstd::prelude::*;
use std::collections::VecDeque;
use crate::args::words_of;
use crate::text::{
    chars_of, decimal, parse_usize, pieces_of, push_decimal, push_str, same_text, slice_chars,
    split, split_chars, string_of, unsigned_value,
};

verus! {

broadcast use vstd::std_specs::vecdeque::group_vec_dequeue_axioms;

/// How many entries the store keeps; the oldest go first.
pub const MAX_HISTORY_RETAINED: usize = 100;

/// What the `history` builtin was asked to do.
#[derive(Clone, Debug, PartialEq, Eq)]
pub enum HistoryArgs {
    ShowAll,
    ShowLast(usize),
    Write(String),
    Append(String),
    Read(String),
}

/// Whether `r` is what `history` was asked with `args`: `-r`, `-w` or `-a`
/// with a path, a count of entries to show, or anything else to show them
/// all.
pub open spec fn history_args_match(r: HistoryArgs, a: Seq<Seq<char>>) -> bool {
    if a.len() == 2 && a[0] == "-r"@ {
        r matches HistoryArgs::Read(p) && p@ == a[1]
    } else if a.len() == 2 && a[0] == "-w"@ {
        r matches HistoryArgs::Write(p) && p@ == a[1]
    } else if a.len() == 2 && a[0] == "-a"@ {
        r matches HistoryArgs::Append(p) && p@ == a[1]
    } else if a.len() == 1 && unsigned_value(a[0], usize::MAX as nat) is Some {
        r matches HistoryArgs::ShowLast(n) && unsigned_value(a[0], usize::MAX as nat) == Some(
            n as nat,
        )
    } else {
        r is ShowAll
    }
}

impl HistoryArgs {
    /// Reads the arguments of `history`: `-r`, `-w` or `-a` with a path, a
    /// count of entries to show, or anything else to show them all.
    pub fn from_args(args: &Vec<String>) -> (r: HistoryArgs)
        ensures
            history_args_match(r, words_of(args@)),
    {
        if args.len() == 2 {
            let flag = args[0].as_str();
            if same_text(flag, "-r") {
                return HistoryArgs::Read(args[1].clone());
            } else if same_text(flag, "-w") {
                return HistoryArgs::Write(args[1].clone());
            } else if same_text(flag, "-a") {
                return HistoryArgs::Append(args[1].clone());
            }
        }
        if args.len() == 1 {
            match parse_usize(args[0].as_str()) {
                Some(n) => HistoryArgs::ShowLast(n),
                None => HistoryArgs::ShowAll,
            }
        } else {
            HistoryArgs::ShowAll
        }
    }
}

/// The entries after `line` is recorded: appended, with the oldest dropped
/// when the store is full.
pub open spec fn after_add(entries: Seq<Seq<char>>, line: Seq<char>) -> Seq<Seq<char>> {
    if entries.len() >= MAX_HISTORY_RETAINED {
        entries.drop_first().push(line)
    } else {
        entries.push(line)
    }
}

/// The entries after each of `lines` is recorded in turn.
pub open spec fn after_adds(entries: Seq<Seq<char>>, lines: Seq<Seq<char>>) -> Seq<Seq<char>>
    decreases lines.len(),
{
    if lines.len() == 0 {
        entries
    } else {
        after_add(after_adds(entries, lines.drop_last()), lines.last())
    }
}

/// The appended mark after one entry is recorded on a store of `len`
/// entries: it follows its entry when the oldest is dropped.
pub open spec fn mark_after_add(len: nat, appended: nat) -> nat {
    if len >= MAX_HISTORY_RETAINED && appended > 0 {
        (appended - 1) as nat
    } else {
        appended
    }
}

/// The appended mark after each of `lines` is recorded in turn.
pub open spec fn mark_after_adds(entries: Seq<Seq<char>>, appended: nat, lines: Seq<Seq<char>>) -> nat
    decreases lines.len(),
{
    if lines.len() == 0 {
        appended
    } else {
        mark_after_add(
            after_adds(entries, lines.drop_last()).len(),
            mark_after_adds(entries, appended, lines.drop_last()),
        )
    }
}

/// One move of the browse cursor: the new cursor, and the text to show
/// (`None` when there is nothing to show, the empty text for the line being
/// edited).
pub open spec fn browse_step(entries: Seq<Seq<char>>, browse: nat, is_down: bool) -> (
    nat,
    Option<Seq<char>>,
) {
    let len = entries.len();
    if len == 0 || (browse == 0 && is_down) {
        (browse, None)
    } else {
        let moved: int = if is_down {
            browse - 1int
        } else {
            browse + 1int
        };
        let idx: int = if moved < 0 {
            0
        } else if moved > len {
            len as int
        } else {
            moved
        };
        if idx == 0 {
            (browse, Some(Seq::empty()))
        } else {
            (idx as nat, Some(entries[len - idx]))
        }
    }
}

/// The text of an optional string.
pub open spec fn opt_text(o: Option<String>) -> Option<Seq<char>> {
    match o {
        Some(s) => Some(s@),
        None => None,
    }
}

/// One line of the listing: the 1-based index and the entry.
pub open spec fn listing_line(i: nat, entry: Seq<char>) -> Seq<char> {
    "  "@ + decimal(i + 1) + "  "@ + entry + seq!['\n']
}

/// The listing of `entries[from..to]`.
pub open spec fn listing(entries: Seq<Seq<char>>, from: nat, to: nat) -> Seq<char>
    decreases to,
{
    if to <= from {
        Seq::empty()
    } else {
        listing(entries, from, (to - 1) as nat) + listing_line((to - 1) as nat, entries[to - 1])
    }
}

/// Where the listing starts: the oldest `len - limit` entries are skipped.
pub open spec fn listing_start(len: nat, limit: Option<usize>) -> nat {
    match limit {
        Some(n) => if n < len {
            (len - n) as nat
        } else {
            0
        },
        None => 0,
    }
}

/// The entries not yet appended to a file.
pub open spec fn append_batch(entries: Seq<Seq<char>>, appended: nat) -> Seq<Seq<char>> {
    entries.subrange(appended as int, entries.len() as int)
}

/// A line of a file without the carriage return of a `\r\n` ending.
pub open spec fn strip_cr(line: Seq<char>) -> Seq<char> {
    if line.len() > 0 && line.last() == '\r' {
        line.drop_last()
    } else {
        line
    }
}

/// The lines of a text as `str::lines` gives them: cut at each `\n`, a `\r`
/// before it dropped, and no empty line after a final `\n`.
pub open spec fn lines_of(s: Seq<char>) -> Seq<Seq<char>> {
    let pieces = split(s, '\n');
    let n = pieces.len();
    let ended = pieces.subrange(0, n - 1).map_values(|p: Seq<char>| strip_cr(p));
    if pieces[n - 1].len() == 0 {
        ended
    } else {
        ended.push(pieces[n - 1])
    }
}

/// The lines entered in this session, oldest first, at most
/// `MAX_HISTORY_RETAINED` of them.
pub struct CommandHistory {
    data: VecDeque<String>,
    browse_idx: usize,
    last_append_idx: Option<usize>,
}

impl CommandHistory {
    /// The entries, oldest first.
    pub closed spec fn entries(&self) -> Seq<Seq<char>> {
        self.data@.map_values(|s: String| s@)
    }

    /// The browse cursor: 0 for the line being edited, growing toward older
    /// entries.
    pub closed spec fn browse(&self) -> nat {
        self.browse_idx as nat
    }

    /// How many of the oldest entries were already appended to a file.
    pub closed spec fn appended(&self) -> nat {
        match self.last_append_idx {
            Some(i) => (i + 1) as nat,
            None => 0,
        }
    }

    /// The store's invariant.
    pub closed spec fn wf(&self) -> bool {
        &&& self.data@.len() <= MAX_HISTORY_RETAINED
        &&& self.browse_idx <= self.data@.len()
        &&& self.appended() <= self.data@.len()
    }

    /// An empty store.
    pub fn new() -> (r: CommandHistory)
        ensures
            r.wf(),
            r.entries() == Seq::<Seq<char>>::empty(),
            r.browse() == 0,
            r.appended() == 0,
    {
        let r = CommandHistory {
            data: VecDeque::with_capacity(MAX_HISTORY_RETAINED),
            browse_idx: 0,
            last_append_idx: None,
        };
        assert(r.entries() =~= Seq::<Seq<char>>::empty());
        r
    }

    /// The number of entries.
    pub fn len(&self) -> (r: usize)
        requires
            self.wf(),
        ensures
            r == self.entries().len(),
    {
        self.data.len()
    }

    /// Records `command` as the newest entry, dropping the oldest when the
    /// store is full.
    pub fn add(&mut self, command: &str)
        requires
            old(self).wf(),
        ensures
            final(self).wf(),
            final(self).entries() == after_add(old(self).entries(), command@),
            final(self).browse() == old(self).browse(),
            final(self).appended() == mark_after_add(
                old(self).entries().len(),
                old(self).appended(),
            ),
    {
        let ghost e0 = self.entries();
        if self.data.len() == MAX_HISTORY_RETAINED {
            let _ = self.data.pop_front();
            self.last_append_idx = match self.last_append_idx {
                Some(i) => if i == 0 {
                    None
                } else {
                    Some(i - 1)
                },
                None => None,
            };
        }
        self.data.push_back(string_of(chars_of(command).as_slice()));
        assert(self.entries() =~= after_add(e0, command@));
    }

    /// Moves the browse cursor back to the line being edited.
    pub fn reset_browse(&mut self)
        requires
            old(self).wf(),
        ensures
            final(self).wf(),
            final(self).entries() == old(self).entries(),
            final(self).appended() == old(self).appended(),
            final(self).browse() == 0,
    {
        self.browse_idx = 0;
    }

    /// Moves the browse cursor one entry older (`is_down` false) or newer,
    /// and returns the text to show.
    pub fn browse_next(&mut self, is_down: bool) -> (r: Option<String>)
        requires
            old(self).wf(),
        ensures
            final(self).wf(),
            final(self).entries() == old(self).entries(),
            final(self).appended() == old(self).appended(),
            (final(self).browse(), opt_text(r)) == browse_step(
                old(self).entries(),
                old(self).browse(),
                is_down,
            ),
    {
        let len = self.data.len();
        if len == 0 || (self.browse_idx == 0 && is_down) {
            return None;
        }
        let idx: usize = if is_down {
            self.browse_idx - 1
        } else if self.browse_idx + 1 > len {
            len
        } else {
            self.browse_idx + 1
        };
        if idx == 0 {
            return Some(string_of(Vec::<char>::new().as_slice()));
        }
        self.browse_idx = idx;
        let e = self.data[len - idx].clone();
        Some(e)
    }

    /// The listing that `history` prints: every entry, or the newest `limit`
    /// of them, one per line after its 1-based index.
    pub fn listing(&self, limit: Option<usize>) -> (r: String)
        requires
            self.wf(),
        ensures
            r@ == listing(
                self.entries(),
                listing_start(self.entries().len(), limit),
                self.entries().len(),
            ),
    {
        let len = self.data.len();
        let start: usize = match limit {
            Some(n) => if n < len {
                len - n
            } else {
                0
            },
            None => 0,
        };
        let mut v: Vec<char> = Vec::new();
        let mut i: usize = start;
        while i < len
            invariant
                self.wf(),
                len == self.entries().len(),
                start <= i <= len,
                v@ == listing(self.entries(), start as nat, i as nat),
            decreases len - i,
        {
            push_str(&mut v, "  ");
            push_decimal(&mut v, i + 1);
            push_str(&mut v, "  ");
            push_str(&mut v, self.data[i].as_str());
            v.push('\n');
            assert(v@ =~= listing(self.entries(), start as nat, (i + 1) as nat));
            i = i + 1;
        }
        string_of(v.as_slice())
    }
    /// Records each line of a history file's text, as `add` does.
    pub fn read_lines(&mut self, content: &str)
        requires
            old(self).wf(),
        ensures
            final(self).wf(),
            final(self).entries() == after_adds(old(self).entries(), lines_of(content@)),
            final(self).appended() == mark_after_adds(
                old(self).entries(),
                old(self).appended(),
                lines_of(content@),
            ),
            final(self).browse() == old(self).browse(),
    {
        let pieces = split_chars(&chars_of(content), '\n');
        proof {
            crate::text::lemma_split_nonempty(content@, '\n');
        }
        let n = pieces.len();
        let ghost e0 = self.entries();
        let ghost a0 = self.appended();
        let ghost lines = lines_of(content@);
        let ghost ps = split(content@, '\n');
        assert(lines.subrange(0, 0) =~= Seq::<Seq<char>>::empty());
        let mut i: usize = 0;
        while i + 1 < n
            invariant
                pieces_of(pieces@) == ps,
                ps == split(content@, '\n'),
                lines == lines_of(content@),
                n == ps.len() >= 1,
                i < n,
                self.wf(),
                self.entries() == after_adds(e0, lines.subrange(0, i as int)),
                self.appended() == mark_after_adds(e0, a0, lines.subrange(0, i as int)),
                self.browse() == old(self).browse(),
            decreases n - i,
        {
            let p = &pieces[i];
            assert(pieces_of(pieces@)[i as int] == p@);
            let end: usize = if p.len() > 0 && p[p.len() - 1] == '\r' {
                p.len() - 1
            } else {
                p.len()
            };
            let line = slice_chars(p, 0, end);
            assert(line@ =~= strip_cr(p@));
            assert(lines[i as int] == strip_cr(ps[i as int]));
            let ghost pre = lines.subrange(0, i as int);
            assert(lines.subrange(0, i + 1).drop_last() =~= pre);
            self.add(string_of(line.as_slice()).as_str());
            i = i + 1;
        }
        let last = &pieces[n - 1];
        assert(pieces_of(pieces@)[n - 1] == last@);
        if last.len() > 0 {
            assert(lines.subrange(0, i + 1).drop_last() =~= lines.subrange(0, i as int));
            self.add(string_of(last.as_slice()).as_str());
            assert(lines.subrange(0, i + 1) =~= lines);
        } else {
            assert(lines.subrange(0, i as int) =~= lines);
        }
    }

    /// A store holding the lines of a history file's text, all of them
    /// counted as already appended to it.
    pub fn from_file_text(content: &str) -> (r: CommandHistory)
        ensures
            r.wf(),
            r.entries() == after_adds(Seq::empty(), lines_of(content@)),
            r.browse() == 0,
            r.appended() == r.entries().len(),
    {
        let mut h = CommandHistory::new();
        h.read_lines(content);
        let len = h.data.len();
        h.last_append_idx = if len > 0 {
            Some(len - 1)
        } else {
            None
        };
        h
    }

    /// The entries to write to a history file. When appending, these are the
    /// entries not yet appended, which are then counted as appended; else they
    /// are all the entries, and the appended mark stays.
    pub fn entries_to_write(&mut self, append: bool) -> (r: Vec<String>)
        requires
            old(self).wf(),
        ensures
            final(self).wf(),
            final(self).entries() == old(self).entries(),
            final(self).browse() == old(self).browse(),
            append ==> words_of(r@) == append_batch(old(self).entries(), old(self).appended()),
            append ==> final(self).appended() == old(self).entries().len(),
            !append ==> words_of(r@) == old(self).entries(),
            !append ==> final(self).appended() == old(self).appended(),
    {
        let len = self.data.len();
        let skip: usize = if append {
            match self.last_append_idx {
                Some(i) => i + 1,
                None => 0,
            }
        } else {
            0
        };
        let mut r: Vec<String> = Vec::new();
        let mut i: usize = skip;
        assert(words_of(r@) =~= self.entries().subrange(skip as int, skip as int));
        while i < len
            invariant
                self.wf(),
                len == self.entries().len(),
                skip <= i <= len,
                words_of(r@) == self.entries().subrange(skip as int, i as int),
            decreases len - i,
        {
            let ghost r0 = r@;
            r.push(self.data[i].clone());
            assert(words_of(r@) =~= words_of(r0).push(self.data@[i as int]@));
            assert(self.entries().subrange(skip as int, i + 1) =~= self.entries().subrange(
                skip as int,
                i as int,
            ).push(self.entries()[i as int]));
            i = i + 1;
        }
        assert(self.entries().subrange(0, len as int) =~= self.entries());
        if append {
            self.last_append_idx = if len > 0 {
                Some(len - 1)
            } else {
                None
            };
        }
        r
    }
}

/// The store never holds more than `MAX_HISTORY_RETAINED` entries, however
/// many lines are recorded.
pub proof fn lemma_adds_bounded(entries: Seq<Seq<char>>, lines: Seq<Seq<char>>)
    requires
        entries.len() <= MAX_HISTORY_RETAINED,
    ensures
        after_adds(entries, lines).len() <= MAX_HISTORY_RETAINED,
    decreases lines.len(),
{
    if lines.len() > 0 {
        lemma_adds_bounded(entries, lines.drop_last());
    }
}

proof fn lemma_adds_below_capacity(lines: Seq<Seq<char>>)
    requires
        lines.len() <= MAX_HISTORY_RETAINED,
    ensures
        after_adds(Seq::empty(), lines) == lines,
    decreases lines.len(),
{
    if lines.len() > 0 {
        lemma_adds_below_capacity(lines.drop_last());
        assert(lines.drop_last().push(lines.last()) =~= lines);
    }
}

/// Recorded on an empty store, the first `MAX_HISTORY_RETAINED` lines are all
/// kept, and the next one drops the first.
pub proof fn lemma_overflow_drops_oldest(lines: Seq<Seq<char>>)
    requires
        lines.len() == MAX_HISTORY_RETAINED + 1,
    ensures
        after_adds(Seq::empty(), lines.drop_last()) == lines.drop_last(),
        after_adds(Seq::empty(), lines) == lines.subrange(1, lines.len() as int),
{
    lemma_adds_below_capacity(lines.drop_last());
    assert(lines.drop_last().drop_first().push(lines.last()) =~= lines.subrange(
        1,
        lines.len() as int,
    ));
}

/// The cursor after `k` moves toward older entries from `browse`.
pub open spec fn cursor_after_ups(entries: Seq<Seq<char>>, browse: nat, k: nat) -> nat
    decreases k,
{
    if k == 0 {
        browse
    } else {
        browse_step(entries, cursor_after_ups(entries, browse, (k - 1) as nat), false).0
    }
}

/// The cursor after `k` moves toward newer entries from `browse`.
pub open spec fn cursor_after_downs(entries: Seq<Seq<char>>, browse: nat, k: nat) -> nat
    decreases k,
{
    if k == 0 {
        browse
    } else {
        browse_step(entries, cursor_after_downs(entries, browse, (k - 1) as nat), true).0
    }
}

/// The smaller of two numbers.
pub open spec fn min_nat(a: nat, b: nat) -> nat {
    if a < b {
        a
    } else {
        b
    }
}

proof fn lemma_ups_cursor(entries: Seq<Seq<char>>, k: nat)
    requires
        entries.len() > 0,
    ensures
        cursor_after_ups(entries, 0, k) == min_nat(k, entries.len()),
    decreases k,
{
    if k > 0 {
        lemma_ups_cursor(entries, (k - 1) as nat);
    }
}

/// Browsing a history of `m > 0` entries from the line being edited: the
/// `k`-th move toward older entries shows entry `m - min(k, m)`, so that once
/// the oldest is reached further moves stay on it.
pub proof fn lemma_browse_up(entries: Seq<Seq<char>>, k: nat)
    requires
        entries.len() > 0,
        k > 0,
    ensures
        cursor_after_ups(entries, 0, k) == min_nat(k, entries.len()),
        browse_step(entries, cursor_after_ups(entries, 0, (k - 1) as nat), false).1 == Some(
            entries[entries.len() - min_nat(k, entries.len())],
        ),
{
    lemma_ups_cursor(entries, k);
    lemma_ups_cursor(entries, (k - 1) as nat);
}

/// From the cursor `j = min(k, m)` reached by `k` moves toward older entries,
/// with `j >= 2`, one move toward newer entries shows entry `m - (j - 1)`.
pub proof fn lemma_browse_down_once(entries: Seq<Seq<char>>, k: nat)
    requires
        entries.len() > 0,
        min_nat(k, entries.len()) >= 2,
    ensures
        ({
            let j = min_nat(k, entries.len());
            browse_step(entries, cursor_after_ups(entries, 0, k), true) == (
                (j - 1) as nat,
                Some(entries[entries.len() - (j - 1)]),
            )
        }),
{
    lemma_ups_cursor(entries, k);
}

proof fn lemma_downs_cursor(entries: Seq<Seq<char>>, j: nat, i: nat)
    requires
        1 <= j <= entries.len(),
        i < j,
    ensures
        cursor_after_downs(entries, j, i) == j - i,
    decreases i,
{
    if i > 0 {
        lemma_downs_cursor(entries, j, (i - 1) as nat);
    }
}

/// From the cursor `j = min(k, m)` reached by `k > 0` moves toward older
/// entries, the `j`-th move toward newer entries shows the line being edited.
pub proof fn lemma_browse_back_to_live(entries: Seq<Seq<char>>, k: nat)
    requires
        entries.len() > 0,
        k > 0,
    ensures
        ({
            let j = min_nat(k, entries.len());
            let before_last = cursor_after_downs(entries, cursor_after_ups(entries, 0, k), (j - 1) as nat);
            browse_step(entries, before_last, true).1 == Some(Seq::<char>::empty())
        }),
{
    let j = min_nat(k, entries.len());
    lemma_ups_cursor(entries, k);
    lemma_downs_cursor(entries, j, (j - 1) as nat);
}

/// Appending to a file twice in a row writes each entry at most once: the
/// first write takes the entries not yet appended, the second takes none.
pub proof fn lemma_append_twice(entries: Seq<Seq<char>>, appended: nat)
    requires
        appended <= entries.len(),
    ensures
        append_batch(entries, entries.len()) == Seq::<Seq<char>>::empty(),
        append_batch(entries, appended) + append_batch(entries, entries.len()) == entries.subrange(
            appended as int,
            entries.len() as int,
        ),
{
    assert(append_batch(entries, entries.len()) =~= Seq::<Seq<char>>::empty());
    assert(append_batch(entries, appended) + Seq::<Seq<char>>::empty() =~= append_batch(
        entries,
        appended,
    ));
}

} // verus!
